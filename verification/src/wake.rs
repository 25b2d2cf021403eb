//! Wake capabilities and completion flags: how a background worker tells
//! a driver that a pending participant is worth polling again, and how the
//! polling side observes completion. The channel and lock primitives of
//! std behind them are trusted; everything layered on top is verified.

use std::sync::Arc;
use std::sync::Mutex;
use std::sync::mpsc::Sender;
use core::sync::atomic::AtomicBool;
use core::sync::atomic::Ordering;
use vstd::prelude::*;

verus! {

#[verifier::external_type_specification]
#[verifier::external_body]
#[verifier::reject_recursive_types(T)]
pub struct ExSender<T>(Sender<T>);

#[verifier::external_type_specification]
#[verifier::external_body]
#[verifier::reject_recursive_types(T)]
pub struct ExMutex<T: ?Sized>(Mutex<T>);

/// Relies on std::sync::mpsc::Sender::clone: the clone sends into the same
/// channel. Nothing further is claimed of the returned handle.
pub assume_specification<T>[ <Sender<T> as Clone>::clone ](tx: &Sender<T>) -> Sender<T>;

/// Relies on std::sync::Arc::clone: the clone is a handle to the same
/// allocation, so it carries the same value.
#[verifier::external_body]
fn clone_arc<T>(a: &Arc<T>) -> (r: Arc<T>)
    ensures
        r == *a,
{
    Arc::clone(a)
}

/// Relies on std::sync::mpsc::Sender::send: delivers the value unless the
/// receiving end is gone; a failed delivery is dropped on the floor, which
/// is the correct fate of a wake aimed at a driver that no longer exists.
#[verifier::external_body]
fn send_value<T>(tx: &Sender<T>, value: T) {
    let _ = tx.send(value);
}

/// Relies on std::sync::mpsc::Sender::send: delivers the value to a
/// service that must exist. Delivery fails only when the receiving end is
/// gone; that loss would be silent and permanent for the sender, so it is
/// deliberately fatal here.
#[verifier::external_body]
pub(crate) fn send_required<T>(tx: &Sender<T>, value: T) {
    tx.send(value).map_err(|_| ()).unwrap();
}

/// Relies on std::sync::Mutex::new.
#[verifier::external_body]
fn new_mutex<T>(value: T) -> Mutex<T> {
    Mutex::new(value)
}

/// Relies on std::sync::Mutex::lock and core::mem::replace: stores `value`
/// in the slot and hands back what was there. A poisoned lock is recovered,
/// so this never panics.
#[verifier::external_body]
fn replace_locked<T>(slot: &Arc<Mutex<T>>, value: T) -> T {
    let mut guard = slot.lock().unwrap_or_else(|e| e.into_inner());
    core::mem::replace(&mut *guard, value)
}

/// Relies on std::sync::Mutex::lock: hands back a clone of the stored
/// value. A poisoned lock is recovered, so this never panics.
#[verifier::external_body]
fn read_locked<T: Clone>(slot: &Arc<Mutex<T>>) -> T {
    let guard = slot.lock().unwrap_or_else(|e| e.into_inner());
    guard.clone()
}

/// A wake capability: an opaque callable handle a pending participant may
/// store and later invoke, exactly to request one more poll from the
/// driver that supplied it.
pub struct Waker {
    tx: Sender<()>,
}

impl Clone for Waker {
    /// The clone signals the same driver.
    fn clone(&self) -> Waker {
        Waker { tx: self.tx.clone() }
    }
}

impl Waker {
    /// Wraps the sending half of the driver's wake channel.
    pub fn new(tx: Sender<()>) -> Waker {
        Waker { tx }
    }

    /// Signals readiness for a re-poll.
    pub fn wake(&self) {
        send_value(&self.tx, ());
    }
}

/// A boolean raised at most conceptually once by a background worker and
/// observed from the polling side. What a read returns depends on the
/// other side's progress, so no call promises a particular answer.
pub struct Flag {
    cell: Arc<AtomicBool>,
}

impl Clone for Flag {
    /// The clone observes and raises the very same flag.
    fn clone(&self) -> (r: Flag)
        ensures
            r == *self,
    {
        Flag { cell: clone_arc(&self.cell) }
    }
}

impl Flag {
    /// A fresh, lowered flag.
    pub fn new() -> Flag {
        Flag { cell: Arc::new(AtomicBool::new(false)) }
    }

    /// Raises the flag.
    pub fn set(&self) {
        self.cell.store(true, Ordering::SeqCst);
    }

    /// Observes the flag.
    pub fn get(&self) -> bool {
        self.cell.load(Ordering::SeqCst)
    }
}

/// A shared slot holding the most recently registered wake capability,
/// written by the polling side and read by the background worker.
pub struct WakerSlot {
    cell: Arc<Mutex<Waker>>,
}

impl Clone for WakerSlot {
    /// The clone stores into and reads from the very same slot.
    fn clone(&self) -> (r: WakerSlot)
        ensures
            r == *self,
    {
        WakerSlot { cell: clone_arc(&self.cell) }
    }
}

impl WakerSlot {
    /// A slot holding `waker`.
    pub fn new(waker: Waker) -> WakerSlot {
        WakerSlot { cell: Arc::new(new_mutex(waker)) }
    }

    /// Replaces the stored wake capability with the latest one supplied.
    pub fn store(&self, waker: Waker) {
        let _previous = replace_locked(&self.cell, waker);
    }

    /// Invokes the most recently stored wake capability.
    pub fn wake_stored(&self) {
        let waker = read_locked(&self.cell);
        waker.wake();
    }
}

} // verus!
