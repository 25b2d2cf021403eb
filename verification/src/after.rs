//! An adapter that turns a unit-output operand into one that completes
//! with a chosen value, raising a flag at the moment of completion. This
//! is the building block for observable race and join operands: the flag
//! records whether the operand's completion side effect ever ran, and the
//! value identifies which operand won.

use vstd::prelude::*;
use crate::poll::Poll;
use crate::poll::Pollable;
use crate::wake::Flag;
use crate::wake::Waker;

verus! {

/// Completes with `result` right after `inner` completes, raising `signal`
/// exactly once at that moment. Further polls return the same value again
/// without touching the flag.
pub struct After<P, V> where P: Pollable<Output = ()> {
    inner: P,
    result: V,
    signal: Flag,
    done: bool,
}

impl<P, V> After<P, V> where P: Pollable<Output = ()>, V: Copy {
    /// The value this adapter will complete with.
    pub closed spec fn planned(&self) -> V {
        self.result
    }

    /// The wrapped operand.
    pub closed spec fn operand(&self) -> P {
        self.inner
    }

    /// A not-yet-completed adapter around `inner`.
    pub fn new(inner: P, result: V, signal: Flag) -> (r: After<P, V>)
        ensures
            !r.completed(),
            r.planned() == result,
            r.operand() == inner,
    {
        After { inner, result, signal, done: false }
    }
}

impl<P, V> Pollable for After<P, V> where P: Pollable<Output = ()>, V: Copy {
    type Output = V;

    closed spec fn completed(&self) -> bool {
        self.done
    }

    closed spec fn value(&self) -> V {
        self.result
    }

    open spec fn step_post(&self, pre: Self, r: Poll<V>) -> bool {
        &&& self.planned() == pre.planned()
        // An operand that had already completed is observed ready at once.
        &&& (!pre.completed() && pre.operand().completed() ==> r == Poll::Ready(pre.planned()))
        // Completion is the operand's: a fresh step reports ready exactly
        // when the operand, as this step's poll of it left it, completed.
        &&& (!pre.completed() ==> ((r matches Poll::Ready(_)) <==> self.operand().completed()))
    }

    fn advance(&mut self, waker: &Waker) -> (r: Poll<V>) {
        if self.done {
            return Poll::Ready(self.result);
        }
        match self.inner.advance(waker) {
            Poll::Ready(_) => {
                self.signal.set();
                self.done = true;
                Poll::Ready(self.result)
            },
            Poll::Pending => Poll::Pending,
        }
    }
}

} // verus!
