//! A suspending timer: a leaf participant that completes once real time
//! has elapsed. The timer itself never blocks and owns no clock; on its
//! first poll it files exactly one start request with a timer service the
//! environment runs. The service waits out the duration off the polling
//! thread, raises the request's completion flag, and then wakes the most
//! recently registered wake capability.

use vstd::prelude::*;
use crate::poll::Poll;
use crate::poll::Pollable;
use crate::wake::Flag;
use crate::wake::Waker;
use crate::wake::WakerSlot;
use std::sync::mpsc::Sender;

verus! {

/// One start request for the timer service: wait out `duration_ms`
/// milliseconds off the polling thread, then raise `done` and finally
/// invoke the wake capability most recently stored in `wakers`.
pub struct TimerRequest {
    pub duration_ms: u64,
    pub done: Flag,
    pub wakers: WakerSlot,
}

/// A handle to the environment's timer service: the capability to have a
/// duration waited out somewhere off the polling thread.
pub struct TimerService {
    tx: Sender<TimerRequest>,
}

impl Clone for TimerService {
    /// The clone files requests with the same service.
    fn clone(&self) -> TimerService {
        TimerService { tx: self.tx.clone() }
    }
}

impl TimerService {
    /// Wraps the sending half of the service's request channel.
    pub fn new(tx: Sender<TimerRequest>) -> TimerService {
        TimerService { tx }
    }

    /// Files a start request. A vanished service is fatal: without it the
    /// timer has no way to make progress, so this call panics rather than
    /// failing silently.
    fn start(&self, request: TimerRequest) {
        crate::wake::send_required(&self.tx, request);
    }
}

/// A timer that completes no earlier than `duration_ms` milliseconds after
/// its first poll. Construction is inert: no timekeeping starts until the
/// first call to `advance`, which files the single start request this
/// timer will ever make.
pub struct Sleep {
    duration_ms: u64,
    started: bool,
    done: bool,
    fired: Option<Flag>,
    wakers: Option<WakerSlot>,
    service: TimerService,
}

impl Sleep {
    /// The configured duration, in milliseconds.
    pub closed spec fn duration(&self) -> u64 {
        self.duration_ms
    }

    /// Whether the start request has been filed. This moves from false to
    /// true on the first poll and never back, so at most one background
    /// wait is ever requested per timer.
    pub closed spec fn started(&self) -> bool {
        self.started
    }

    /// The handle to the completion flag shared with the service, present
    /// once the timer has started.
    pub closed spec fn signal(&self) -> Option<Flag> {
        self.fired
    }

    /// The handle to the waker slot shared with the service, present once
    /// the timer has started.
    pub closed spec fn wake_slot(&self) -> Option<WakerSlot> {
        self.wakers
    }

    /// An inert timer for `duration_ms` milliseconds: not started, not
    /// completed, and with no request filed.
    pub fn new(duration_ms: u64, service: TimerService) -> (s: Sleep)
        ensures
            !s.completed(),
            !s.started(),
            s.duration() == duration_ms,
    {
        Sleep { duration_ms, started: false, done: false, fired: None, wakers: None, service }
    }

    /// Builds the one start request this timer files: the configured
    /// duration, a fresh lowered completion flag, and a slot holding the
    /// supplied wake capability. The timer keeps handles to the very same
    /// flag and slot, and is started from here on.
    fn arm(&mut self, waker: &Waker) -> (req: TimerRequest)
        ensures
            req.duration_ms == old(self).duration(),
            final(self).duration() == old(self).duration(),
            final(self).started(),
            final(self).completed() == old(self).completed(),
            final(self).signal() == Some(req.done),
            final(self).wake_slot() == Some(req.wakers),
    {
        let flag = Flag::new();
        let slot = WakerSlot::new(waker.clone());
        let req = TimerRequest {
            duration_ms: self.duration_ms,
            done: flag.clone(),
            wakers: slot.clone(),
        };
        self.fired = Some(flag);
        self.wakers = Some(slot);
        self.started = true;
        req
    }

    /// Decides one poll from the completion flag's observed value: the
    /// timer is completed afterwards exactly when it already was or the
    /// flag was seen raised, and the answer is ready exactly then. Every
    /// other part of the timer is left untouched. This holds for every
    /// value of `fired`, however the flag read went.
    pub fn settle(&mut self, fired: bool) -> (r: Poll<()>)
        ensures
            final(self).completed() == (old(self).completed() || fired),
            (r matches Poll::Ready(_)) <==> final(self).completed(),
            final(self).started() == old(self).started(),
            final(self).duration() == old(self).duration(),
            final(self).signal() == old(self).signal(),
            final(self).wake_slot() == old(self).wake_slot(),
    {
        if fired {
            self.done = true;
        }
        if self.done {
            Poll::Ready(())
        } else {
            Poll::Pending
        }
    }
}

impl Pollable for Sleep {
    type Output = ();

    closed spec fn completed(&self) -> bool {
        self.done
    }

    closed spec fn value(&self) -> () {
        ()
    }

    open spec fn step_post(&self, pre: Sleep, r: Poll<()>) -> bool {
        &&& self.duration() == pre.duration()
        &&& (pre.started() ==> self.started())
        &&& (!pre.started() && !pre.completed() ==> self.started() && !self.completed() && r
            == Poll::<()>::Pending && self.signal() is Some && self.wake_slot() is Some)
        &&& (pre.started() || pre.completed() ==> self.signal() == pre.signal()
            && self.wake_slot() == pre.wake_slot())
    }

    fn advance(&mut self, waker: &Waker) -> (r: Poll<()>) {
        if self.done {
            return Poll::Ready(());
        }
        if !self.started {
            let request = self.arm(waker);
            self.service.start(request);
            return Poll::Pending;
        }
        // Re-register the latest wake capability and observe the flag; the
        // completion decision itself is `settle`'s, for whatever was seen.
        let fired = match (&self.wakers, &self.fired) {
            (Some(slot), Some(flag)) => {
                slot.store(waker.clone());
                flag.get()
            },
            _ => false,
        };
        self.settle(fired)
    }
}

} // verus!
