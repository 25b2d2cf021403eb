//! The wait-for-all combinator: a builder accumulates unit-output operands
//! in insertion order; the driving future advances by polling every
//! still-pending operand each cycle, removing each one the first time it
//! reports ready, and completes exactly when the collection is empty. With
//! zero pushed operands it completes immediately on the first poll.

use vstd::prelude::*;
use crate::poll::Poll;
use crate::poll::Pollable;
use crate::poll::advanced_from;
use crate::wake::Waker;

verus! {

/// The operands of `s` that are still pending, in order.
pub open spec fn still_pending<P: Pollable<Output = ()>>(s: Seq<P>) -> Seq<P>
    decreases s.len(),
{
    if s.len() == 0 {
        Seq::empty()
    } else {
        let rest = still_pending(s.drop_last());
        if s.last().completed() {
            rest
        } else {
            rest.push(s.last())
        }
    }
}

/// A sequence of completed operands has nothing still pending.
proof fn lemma_still_pending_all_completed<P: Pollable<Output = ()>>(s: Seq<P>)
    requires
        forall|i: int| 0 <= i < s.len() ==> (#[trigger] s[i]).completed(),
    ensures
        still_pending(s).len() == 0,
    decreases s.len(),
{
    if s.len() > 0 {
        lemma_still_pending_all_completed(s.drop_last());
    }
}

/// A builder for a wait-for-all operation: operands are pushed one by one,
/// in the order they will later be polled in, and the builder is then
/// converted exactly once into the future that is actually advanced.
pub struct Join<P> where P: Pollable<Output = ()> {
    operands: Vec<P>,
}

impl<P> View for Join<P> where P: Pollable<Output = ()> {
    type V = Seq<P>;

    closed spec fn view(&self) -> Seq<P> {
        self.operands@
    }
}

impl<P> Join<P> where P: Pollable<Output = ()> {
    /// An empty builder.
    pub fn new() -> (r: Join<P>)
        ensures
            r@ == Seq::<P>::empty(),
    {
        Join { operands: Vec::new() }
    }

    /// Appends one operand, keeping insertion order.
    pub fn push(&mut self, future: P)
        ensures
            final(self)@ == old(self)@.push(future),
    {
        self.operands.push(future);
    }

    /// Converts the builder into the future that owns the accumulated
    /// operands and is subject to the poll contract.
    pub fn into_future(self) -> (r: JoinFuture<P>)
        ensures
            r.pending() == self@,
    {
        JoinFuture { pending: self.operands }
    }
}

/// The driving future of a wait-for-all operation. It reports ready
/// exactly when no pending operand is left.
pub struct JoinFuture<P> where P: Pollable<Output = ()> {
    pending: Vec<P>,
}

impl<P> JoinFuture<P> where P: Pollable<Output = ()> {
    /// The still-pending operands, in insertion order.
    pub closed spec fn pending(&self) -> Seq<P> {
        self.pending@
    }
}

/// A wait-for-all future reports itself completed exactly when no pending
/// operand is left.
pub proof fn lemma_completed_iff_none_pending<P: Pollable<Output = ()>>(jf: &JoinFuture<P>)
    ensures
        jf.completed() <==> jf.pending().len() == 0,
{
}

impl<P> Pollable for JoinFuture<P> where P: Pollable<Output = ()> {
    type Output = ();

    closed spec fn completed(&self) -> bool {
        self.pending@.len() == 0
    }

    closed spec fn value(&self) -> () {
        ()
    }

    open spec fn step_post(&self, pre: Self, r: Poll<()>) -> bool {
        // No operand is kept past its completion, and none is re-polled
        // after being removed: what remains is exactly the still-pending
        // part of the operands as this poll pass left them.
        &&& exists|mid: Seq<P>|
            {
                &&& mid.len() == pre.pending().len()
                &&& (forall|i: int|
                    0 <= i < mid.len() ==> advanced_from(#[trigger] pre.pending()[i], mid[i]))
                &&& self.pending() == still_pending(mid)
            }
        &&& (forall|i: int|
            0 <= i < self.pending().len() ==> !(#[trigger] self.pending()[i]).completed())
        &&& self.pending().len() <= pre.pending().len()
        // A join with zero operands left, in particular one built with zero
        // pushed operands, completes immediately on this very poll.
        &&& (pre.pending().len() == 0 ==> (r matches Poll::Ready(_)) && self.pending()
            == pre.pending())
        // A join whose operands have all completed completes on this poll.
        &&& ((forall|i: int| 0 <= i < pre.pending().len() ==> (#[trigger] pre.pending()[i]).completed())
            ==> r matches Poll::Ready(_))
    }

    fn advance(&mut self, waker: &Waker) -> (r: Poll<()>) {
        if self.pending.len() == 0 {
            proof {
                let mid = Seq::<P>::empty();
                assert(still_pending(mid) =~= self.pending@);
            }
            return Poll::Ready(());
        }
        let mut ops: Vec<P> = Vec::new();
        core::mem::swap(&mut ops, &mut self.pending);
        let ghost orig = ops@;
        let ghost mid: Seq<P> = Seq::empty();
        let mut kept: Vec<P> = Vec::new();

        while ops.len() > 0
            invariant
                mid.len() + ops@.len() == orig.len(),
                ops@ == orig.skip(mid.len() as int),
                forall|i: int| 0 <= i < mid.len() ==> advanced_from(#[trigger] orig[i], mid[i]),
                kept@ == still_pending(mid),
                forall|i: int| 0 <= i < kept@.len() ==> !(#[trigger] kept@[i]).completed(),
                kept@.len() <= mid.len(),
            decreases ops.len(),
        {
            let mut op = ops.remove(0);
            let ghost pre_op = op;
            proof {
                assert(orig[mid.len() as int] == pre_op);
            }
            let res = op.advance(waker);
            proof {
                let mid2 = mid.push(op);
                assert(mid2.drop_last() =~= mid);
                assert(ops@ =~= orig.skip(mid2.len() as int));
                mid = mid2;
            }
            match res {
                Poll::Ready(_) => {},
                Poll::Pending => {
                    kept.push(op);
                },
            }
        }
        proof {
            assert(mid.len() == orig.len());
        }
        core::mem::swap(&mut kept, &mut self.pending);

        if self.pending.len() == 0 {
            Poll::Ready(())
        } else {
            proof {
                if forall|i: int| 0 <= i < orig.len() ==> (#[trigger] orig[i]).completed() {
                    assert forall|i: int| 0 <= i < mid.len() implies (#[trigger] mid[i]).completed() by {
                        assert(orig[i].completed());
                        assert(advanced_from(orig[i], mid[i]));
                    }
                    lemma_still_pending_all_completed(mid);
                    assert(false);
                }
            }
            Poll::Pending
        }
    }
}

} // verus!
