//! The first-to-finish combinator: holds two operands with a common output
//! type, advances by polling the first and then, only if it is still
//! pending, the second. The first result encountered wins; if both would
//! be observed ready on the same poll, the first operand's value wins
//! deterministically. Both operands are released at the moment the race
//! completes, so the loser is dropped without being polled again.

use vstd::prelude::*;
use crate::poll::Poll;
use crate::poll::Pollable;
use crate::wake::Waker;

verus! {

/// A race between two operands sharing an output type. The output type
/// must be `Copy` so that a completed race can keep answering `Ready` with
/// the same value.
pub struct Race<A, B> where A: Pollable, B: Pollable<Output = A::Output> {
    running: Option<(A, B)>,
    finished: Option<A::Output>,
}

impl<A, B> Race<A, B> where A: Pollable, B: Pollable<Output = A::Output>, A::Output: Copy {
    /// The two operands, still owned while no winner exists.
    pub closed spec fn operands(&self) -> Option<(A, B)> {
        self.running
    }

    /// A race that owns both operands and has no winner yet.
    pub fn new(future1: A, future2: B) -> (r: Race<A, B>)
        ensures
            !r.completed(),
            r.operands() == Some((future1, future2)),
    {
        Race { running: Some((future1, future2)), finished: None }
    }
}

impl<A, B> Pollable for Race<A, B> where
    A: Pollable,
    B: Pollable<Output = A::Output>,
    A::Output: Copy,
 {
    type Output = A::Output;

    closed spec fn completed(&self) -> bool {
        self.finished is Some
    }

    closed spec fn value(&self) -> A::Output {
        self.finished.unwrap()
    }

    open spec fn step_post(&self, pre: Self, r: Poll<A::Output>) -> bool {
        // Both operands are released at the moment the race completes.
        &&& (!pre.completed() && self.completed() ==> self.operands() is None)
        // A pending answer means both retained operands stayed pending on
        // this very poll: neither has completed.
        &&& ((r matches Poll::Pending) && !pre.completed() ==> (self.operands() matches Some(kept)
            ==> !kept.0.completed() && !kept.1.completed()))
        &&& match pre.operands() {
            Some(ops) => {
                // Deterministic tie-break: when the first operand has
                // already completed, it is observed ready first and its
                // value is the race's value, whatever the second holds.
                &&& (!pre.completed() && ops.0.completed() ==> r == Poll::Ready(ops.0.value()))
                // Progress: a race over an already-completed operand
                // completes on this very poll.
                &&& (!pre.completed() && (ops.0.completed() || ops.1.completed())
                    ==> r matches Poll::Ready(_))
            },
            None => true,
        }
    }

    fn advance(&mut self, waker: &Waker) -> (r: Poll<A::Output>) {
        if let Some(v) = &self.finished {
            return Poll::Ready(*v);
        }
        match self.running.take() {
            Some((mut a, mut b)) => {
                match a.advance(waker) {
                    Poll::Ready(v) => {
                        self.finished = Some(v);
                        Poll::Ready(v)
                    },
                    Poll::Pending => {
                        match b.advance(waker) {
                            Poll::Ready(v) => {
                                self.finished = Some(v);
                                Poll::Ready(v)
                            },
                            Poll::Pending => {
                                self.running = Some((a, b));
                                Poll::Pending
                            },
                        }
                    },
                }
            },
            None => Poll::Pending,
        }
    }
}

} // verus!
