//! Immediate load shedding: a request is rejected the moment the inner service cannot take
//! it, and the caller is never made to wait.
//!
//! [`RejectionService`] always reports itself ready, so that no caller is parked, but it
//! remembers whether the inner service was ready when probed. A request that arrives while
//! the inner service withholds readiness is answered with [`RejectError::Overloaded`]
//! straight away. An inner service that fails when probed is broken, not overloaded, and
//! its error surfaces as it is.

use vstd::prelude::*;

use crate::ready::Readiness;

verus! {

/// Wraps a service so that requests are rejected while it is not ready.
#[derive(Clone, Copy, Default)]
pub struct RejectionLayer;

impl RejectionLayer {
    pub fn new() -> (l: Self)
        ensures
            l == RejectionLayer,
    {
        RejectionLayer
    }

    /// Put `inner` behind the rejection. Nothing is known of it until it is probed.
    pub fn layer<S>(&self, inner: S) -> (service: RejectionService<S>)
        ensures
            service.inner == inner,
            !service.ready,
    {
        RejectionService { inner, ready: false }
    }
}

/// An inner service that gets a request only if it was ready for it.
pub struct RejectionService<S> {
    pub inner: S,
    /// Whether `inner` reported ready when it was last probed, and no request was handed
    /// over since.
    pub ready: bool,
}

impl<S: Clone> Clone for RejectionService<S> {
    /// A clone has probed nothing yet.
    fn clone(&self) -> (service: Self)
        ensures
            cloned(self.inner, service.inner),
            !service.ready,
    {
        RejectionService { inner: self.inner.clone(), ready: false }
    }
}

/// What becomes of a request.
pub enum Verdict {
    /// The inner service is to be called with it.
    Forward,
    /// It is rejected.
    Shed,
}

/// What is remembered after a probe: whether it found the inner service ready. One that
/// withholds readiness is not, and neither is a broken one.
pub open spec fn remembered<E>(probe: Readiness<E>) -> bool {
    match probe {
        Readiness::Ready => true,
        Readiness::Pending => false,
        Readiness::Failed(_) => false,
    }
}

/// What the caller is told of a probe: ready, unless the inner service is broken.
pub open spec fn reported<E>(probe: Readiness<E>) -> Result<(), RejectError<E>> {
    match probe {
        Readiness::Failed(e) => Err(RejectError::Inner(e)),
        _ => Ok(()),
    }
}

/// What becomes of a request, by what is remembered.
pub open spec fn verdict(ready: bool) -> Verdict {
    if ready { Verdict::Forward } else { Verdict::Shed }
}

impl<S> RejectionService<S> {
    /// Ready at once, whatever probing the inner service came to, unless it is broken.
    pub fn poll_ready<E>(&mut self, probe: Readiness<E>) -> (r: Result<(), RejectError<E>>)
        ensures
            final(self).inner == old(self).inner,
            final(self).ready == remembered(probe),
            r == reported(probe),
    {
        match probe {
            Readiness::Ready => {
                self.ready = true;
                Ok(())
            },
            Readiness::Failed(e) => {
                self.ready = false;
                Err(RejectError::Inner(e))
            },
            Readiness::Pending => {
                self.ready = false;
                Ok(())
            },
        }
    }

    /// Judge a request, which uses the remembered readiness up.
    pub fn call(&mut self) -> (v: Verdict)
        ensures
            final(self).inner == old(self).inner,
            !final(self).ready,
            v == verdict(old(self).ready),
    {
        let ready = self.ready;
        self.ready = false;
        if ready {
            Verdict::Forward
        } else {
            Verdict::Shed
        }
    }
}

/// Why a request was not answered.
pub enum RejectError<E> {
    /// The inner service was not ready for it.
    Overloaded,
    /// The inner service failed.
    Inner(E),
}

/// A request was rejected because the inner service was not ready for it.
#[derive(Clone, Copy)]
pub struct Overloaded;

impl<E> RejectError<E> {
    /// Tells a rejection from a failure of the inner service.
    pub fn overloaded(&self) -> (o: Option<Overloaded>)
        ensures
            o is Some <==> self is Overloaded,
    {
        match self {
            RejectError::Overloaded => Some(Overloaded),
            RejectError::Inner(_) => None,
        }
    }
}

/// The response to a request: that of the inner service, or the rejection.
pub enum ResponseFuture<F> {
    Inner { future: F },
    Rejected,
}

impl<F> ResponseFuture<F> {
    /// The answer so far. `polled` is what polling the inner future came to, `None` while
    /// it has no answer, and is read only where there is an inner future.
    pub fn poll<T, E>(&self, polled: Option<Result<T, E>>) -> (answer: Option<
        Result<T, RejectError<E>>,
    >)
        ensures
            answer == match (*self, polled) {
                (ResponseFuture::Rejected, _) => Some(Err(RejectError::Overloaded)),
                (ResponseFuture::Inner { .. }, Some(Ok(t))) => Some(Ok(t)),
                (ResponseFuture::Inner { .. }, Some(Err(e))) => Some(Err(RejectError::Inner(e))),
                (ResponseFuture::Inner { .. }, None) => None,
            },
    {
        match self {
            ResponseFuture::Inner { .. } => match polled {
                Some(Ok(t)) => Some(Ok(t)),
                Some(Err(e)) => Some(Err(RejectError::Inner(e))),
                None => None,
            },
            ResponseFuture::Rejected => Some(Err(RejectError::Overloaded)),
        }
    }
}

// ---- laws ----

/// A request that follows a probe is forwarded exactly where that probe, the most recent
/// one, found the inner service ready, and is shed otherwise.
pub proof fn law_forwarded_exactly_after_a_ready_probe<E>(probe: Readiness<E>)
    ensures
        verdict(remembered(probe)) is Forward <==> probe is Ready,
        verdict(remembered(probe)) is Shed <==> !(probe is Ready),
{
}

/// No caller is parked, and withheld readiness is no error: it shows only in that the
/// request is shed.
pub proof fn law_shed_exactly_while_readiness_is_withheld<E>(probe: Readiness<E>)
    requires
        !(probe is Failed),
    ensures
        reported(probe) is Ok,
        verdict(remembered(probe)) is Shed <==> probe is Pending,
{
}

/// A broken inner service surfaces its own error, which is not a rejection, and is not
/// remembered as ready.
pub proof fn law_a_broken_inner_is_no_overload<E>(e: E)
    ensures
        reported(Readiness::Failed(e)) == Err::<(), RejectError<E>>(RejectError::Inner(e)),
        !remembered(Readiness::Failed(e)),
{
}

/// The verdicts on a run of requests that nothing was probed between.
pub open spec fn verdicts(ready: bool, n: nat) -> Seq<Verdict>
    decreases n,
{
    if n == 0 {
        Seq::empty()
    } else {
        seq![verdict(ready)] + verdicts(false, (n - 1) as nat)
    }
}

/// One probe is good for one request: of a run of requests without another probe, all but
/// the first are shed.
pub proof fn law_readiness_is_spent_by_one_request(ready: bool, n: nat, i: int)
    requires
        0 <= i < n,
    ensures
        verdicts(ready, n).len() == n,
        verdicts(ready, n)[i] is Forward <==> ready && i == 0,
    decreases n,
{
    if n == 1 {
        assert(verdicts(false, 0).len() == 0);
    } else {
        law_readiness_is_spent_by_one_request(
            false,
            (n - 1) as nat,
            if i == 0 { 0 } else { i - 1 },
        );
    }
}

/// A probe is remembered as ready exactly where it found the inner service ready; what is
/// remembered as ready is forwarded and nothing else; and the caller is told of a failure and
/// of nothing else.
pub proof fn law_what_is_remembered_decides<E>(probe: Readiness<E>, ready: bool)
    ensures
        remembered(probe) <==> probe is Ready,
        verdict(ready) is Forward <==> ready,
        verdict(ready) is Shed <==> !ready,
        reported(probe) is Err <==> probe is Failed,
        probe matches Readiness::Failed(e) ==> reported(probe) == Err::<(), RejectError<E>>(
            RejectError::Inner(e),
        ),
{
}

} // verus!
