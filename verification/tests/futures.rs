use std::sync::mpsc::Receiver;
use std::sync::mpsc::channel;
use std::time::Duration;
use std::time::Instant;

use pollkit::Poll;
use pollkit::Pollable;
use pollkit::after::After;
use pollkit::join::Join;
use pollkit::race::Race;
use pollkit::timer::Sleep;
use pollkit::timer::TimerRequest;
use pollkit::timer::TimerService;
use pollkit::wake::Flag;
use pollkit::wake::Waker;

/// A minimal driver: owns the wake channel and plays the timer service.
/// Every filed request is armed against the wall clock; once a request's
/// deadline passes, the service raises the request's flag and wakes the
/// latest registered waker, and the driver re-polls. All timers run
/// against the clock at once, so they elapse concurrently.
struct Harness {
    waker: Waker,
    wake_rx: Receiver<()>,
    requests_rx: Receiver<TimerRequest>,
    service: TimerService,
    armed: Vec<(Instant, TimerRequest)>,
}

impl Harness {
    fn new() -> Harness {
        let (wake_tx, wake_rx) = channel();
        let (req_tx, requests_rx) = channel::<TimerRequest>();
        Harness {
            waker: Waker::new(wake_tx),
            wake_rx,
            requests_rx,
            service: TimerService::new(req_tx),
            armed: Vec::new(),
        }
    }

    fn service(&self) -> TimerService {
        self.service.clone()
    }

    /// One service pass: arm newly filed requests, fire the due ones.
    fn tick(&mut self) {
        loop {
            match self.requests_rx.try_recv() {
                Ok(req) => {
                    let due = Instant::now() + Duration::from_millis(req.duration_ms);
                    self.armed.push((due, req));
                }
                Err(_) => break,
            }
        }
        let now = Instant::now();
        let mut i: usize = 0;
        while i < self.armed.len() {
            if self.armed[i].0 <= now {
                let (_, req) = self.armed.remove(i);
                req.done.set();
                req.wakers.wake_stored();
            } else {
                i += 1;
            }
        }
    }

    /// Waits until either a wake arrives or a short guard interval passes.
    fn park(&mut self) {
        let _ = self.wake_rx.recv_timeout(Duration::from_millis(2));
    }

    fn run<P: Pollable>(&mut self, mut p: P) -> P::Output {
        loop {
            self.tick();
            match p.advance(&self.waker) {
                Poll::Ready(v) => return v,
                Poll::Pending => self.park(),
            }
        }
    }
}

#[test]
fn sleep() {
    let mut harness = Harness::new();
    let service = harness.service();
    let instant = Instant::now();

    harness.run(Sleep::new(1000, service));

    assert!(instant.elapsed() < Duration::from_secs_f32(1.5));
}

#[test]
fn race1() {
    let mut harness = Harness::new();
    let service = harness.service();
    let instant = Instant::now();
    let future1_finished = Flag::new();
    let future2_finished = Flag::new();

    let future1 = After::new(Sleep::new(1000, service.clone()), 13, future1_finished.clone());
    let future2 = After::new(Sleep::new(2000, service.clone()), 42, future2_finished.clone());

    let result = harness.run(Race::new(future1, future2));
    assert_eq!(result, 13);

    assert!(future1_finished.get());
    assert!(!future2_finished.get());
    assert!(instant.elapsed() < Duration::from_secs_f32(1.5));
}

#[test]
fn race2() {
    let mut harness = Harness::new();
    let service = harness.service();
    let instant = Instant::now();
    let future1_finished = Flag::new();
    let future2_finished = Flag::new();

    let future1 = After::new(Sleep::new(2000, service.clone()), 13, future1_finished.clone());
    let future2 = After::new(Sleep::new(1000, service.clone()), 42, future2_finished.clone());

    let result = harness.run(Race::new(future1, future2));
    assert_eq!(result, 42);

    assert!(!future1_finished.get());
    assert!(future2_finished.get());
    assert!(instant.elapsed() < Duration::from_secs_f32(1.5));
}

#[test]
fn join() {
    let mut harness = Harness::new();
    let service = harness.service();
    let instant = Instant::now();
    let future1_finished = Flag::new();
    let future2_finished = Flag::new();

    let mut join = Join::new();
    join.push(After::new(Sleep::new(1000, service.clone()), (), future1_finished.clone()));
    join.push(After::new(Sleep::new(2000, service.clone()), (), future2_finished.clone()));
    harness.run(join.into_future());

    assert!(future1_finished.get());
    assert!(future2_finished.get());
    assert!(instant.elapsed() < Duration::from_secs_f32(2.5));
}

#[test]
fn timer_lower_bound() {
    let mut harness = Harness::new();
    let service = harness.service();
    let instant = Instant::now();

    harness.run(Sleep::new(300, service));

    let elapsed = instant.elapsed();
    assert!(elapsed >= Duration::from_millis(300));
    assert!(elapsed < Duration::from_millis(800));
}

#[test]
fn idempotent_after_completion() {
    let mut harness = Harness::new();
    let service = harness.service();

    let mut timer = Sleep::new(100, service);
    loop {
        harness.tick();
        match timer.advance(&harness.waker) {
            Poll::Ready(()) => break,
            Poll::Pending => harness.park(),
        }
    }
    // Polling a completed participant again returns ready again, and again,
    // and files no further timer request.
    assert!(matches!(timer.advance(&harness.waker), Poll::Ready(())));
    assert!(matches!(timer.advance(&harness.waker), Poll::Ready(())));
    assert!(harness.requests_rx.try_recv().is_err());
    assert!(harness.armed.is_empty());

    // A completed adapter keeps answering with the same value.
    let flag = Flag::new();
    let mut done = After::new(timer, 7, flag.clone());
    assert_eq!(done.advance(&harness.waker), Poll::Ready(7));
    assert!(flag.get());
    assert_eq!(done.advance(&harness.waker), Poll::Ready(7));
    assert_eq!(done.advance(&harness.waker), Poll::Ready(7));
}

#[test]
fn empty_join() {
    let harness = Harness::new();
    let join: Join<Sleep> = Join::new();
    let mut future = join.into_future();
    // Zero pushed operands: ready on the very first poll.
    assert!(matches!(future.advance(&harness.waker), Poll::Ready(())));
}

#[test]
fn tie_break() {
    let mut harness = Harness::new();
    let service = harness.service();

    // Drive two timers to completion before the race ever polls them, so
    // both operands would be observed ready on the race's very first poll.
    let mut timer1 = Sleep::new(50, service.clone());
    let mut timer2 = Sleep::new(50, service.clone());
    loop {
        harness.tick();
        let first = timer1.advance(&harness.waker);
        let second = timer2.advance(&harness.waker);
        if matches!(first, Poll::Ready(())) && matches!(second, Poll::Ready(())) {
            break;
        }
        harness.park();
    }

    let future1 = After::new(timer1, 13, Flag::new());
    let future2 = After::new(timer2, 42, Flag::new());
    let mut race = Race::new(future1, future2);
    // The first operand's value wins deterministically.
    assert_eq!(race.advance(&harness.waker), Poll::Ready(13));
    // And keeps winning on idempotent re-polls.
    assert_eq!(race.advance(&harness.waker), Poll::Ready(13));
}

#[test]
fn join_then_idempotent() {
    let mut harness = Harness::new();
    let service = harness.service();

    let mut join = Join::new();
    join.push(Sleep::new(100, service.clone()));
    join.push(Sleep::new(150, service.clone()));
    let mut future = join.into_future();
    loop {
        harness.tick();
        match future.advance(&harness.waker) {
            Poll::Ready(()) => break,
            Poll::Pending => harness.park(),
        }
    }
    assert!(matches!(future.advance(&harness.waker), Poll::Ready(())));
}

#[test]
fn settle_decides_completion() {
    let mut harness = Harness::new();
    let service = harness.service();

    let mut timer = Sleep::new(60_000, service);
    // First poll starts the timer and is always pending.
    assert!(matches!(timer.advance(&harness.waker), Poll::Pending));
    // A flag observed low leaves the timer pending; observed high, it
    // completes, and completion then sticks whatever is observed later.
    assert!(matches!(timer.settle(false), Poll::Pending));
    assert!(matches!(timer.settle(true), Poll::Ready(())));
    assert!(matches!(timer.settle(false), Poll::Ready(())));
    assert!(matches!(timer.advance(&harness.waker), Poll::Ready(())));
}
