//! The answer of an inner service that was asked whether it can take a request.

use vstd::prelude::*;

verus! {

/// What probing an inner service for readiness came to.
pub enum Readiness<E> {
    /// It withholds readiness: the caller is to wait.
    Pending,
    /// It can take a request.
    Ready,
    /// It is broken.
    Failed(E),
}

} // verus!
