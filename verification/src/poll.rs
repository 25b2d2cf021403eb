//! The poll protocol: the result of one non-blocking advance step.

use vstd::prelude::*;

verus! {

/// Result of advancing a participant once: still pending, or finished
/// with a value.
#[derive(Clone, Copy, Debug, PartialEq, Eq, Structural)]
pub enum Poll<T> {
    Pending,
    Ready(T),
}

/// The contract every participant obeys: one non-blocking `advance` step
/// that either reports `Pending`, having had the chance to register the
/// supplied wake capability, or reports `Ready` with the final value.
///
/// The shared guarantees: a completed participant is left untouched by
/// further advances and keeps answering `Ready` with the same value (so a
/// spurious extra poll is an idempotent no-op); `Ready` is returned exactly
/// when the participant has completed; and the value returned is the
/// completed participant's value.
pub trait Pollable: Sized {
    type Output;

    /// Whether this participant has reached its terminal state.
    spec fn completed(&self) -> bool;

    /// The value this participant completes with; meaningful once
    /// `completed()` holds.
    spec fn value(&self) -> Self::Output;

    /// Implementation-specific guarantees of one advance step, relating
    /// the state before (`pre`), the state after (`self`), and the step's
    /// result.
    spec fn step_post(&self, pre: Self, r: Poll<Self::Output>) -> bool;

    /// Advances this participant one non-blocking step. `waker` is the
    /// driver's current wake capability; it must be re-registered on every
    /// call because the driver may supply a different one each time.
    fn advance(&mut self, waker: &crate::wake::Waker) -> (r: Poll<Self::Output>)
        ensures
            old(self).completed() ==> *final(self) == *old(self),
            (r matches Poll::Ready(_)) <==> final(self).completed(),
            r matches Poll::Ready(v) ==> v == final(self).value(),
            final(self).step_post(*old(self), r),
    ;
}

/// One advance step never rewrites history: a participant that had already
/// completed is left exactly as it was.
pub open spec fn advanced_from<P: Pollable>(pre: P, post: P) -> bool {
    pre.completed() ==> post == pre
}

} // verus!
