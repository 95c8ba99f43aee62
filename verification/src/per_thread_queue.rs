//! The two halves of a per-thread SPSC queue.
//!
//! Each logging thread owns a [`PerThreadProducer`]; the backend owns the
//! matching [`PerThreadConsumer`]. The shared `alive` flag lets the backend
//! see that a thread has exited, so that its queue can be drained and
//! retired.

use crate::queue2::{Consumer, Producer};
use core::sync::atomic::{AtomicBool, Ordering};
use std::sync::{Arc, Mutex};
use vstd::prelude::*;

verus! {

#[verifier::external_type_specification]
#[verifier::external_body]
#[verifier::reject_recursive_types(T)]
pub struct ExMutex<T: ?Sized>(Mutex<T>);

/// Wraps `value` in a mutex.
///
/// Calls `Mutex::new`; nothing is claimed of the mutex, whose contents are
/// reached only through its lock.
#[verifier::external_body]
pub(crate) fn new_mutex<T>(value: T) -> Mutex<T> {
    Mutex::new(value)
}

/// Backend-owned read half of a per-thread queue.
pub struct PerThreadConsumer {
    /// Consumer half of the queue, behind a mutex so that the handle can be
    /// shared with the worker loop (only the worker ever locks it).
    pub consumer: Mutex<Consumer>,
    /// Shared liveness flag: `true` while the producing thread holds its
    /// half, `false` once that half is dropped.
    pub alive: Arc<AtomicBool>,
}

/// Thread-owned write half of a per-thread queue.
///
/// Dropping it (when its thread exits) clears the shared `alive` flag with a
/// release store.
pub struct PerThreadProducer {
    /// Producer half of the queue.
    pub producer: Producer,
    /// Shared liveness flag, cleared on drop.
    pub alive: Arc<AtomicBool>,
}

/// Clears `flag` with a release store.
///
/// Calls `AtomicBool::store`, which neither unwinds nor touches any
/// invariant of this library; nothing is claimed of the flag's value, which
/// std atomics do not expose to proofs.
#[verifier::external_body]
fn clear_flag(flag: &AtomicBool)
    opens_invariants none
    no_unwind
{
    flag.store(false, Ordering::Release);
}

impl Drop for PerThreadProducer {
    fn drop(&mut self)
        opens_invariants none
        no_unwind
    {
        clear_flag(&self.alive);
    }
}

/// Creates a matched producer/consumer pair over a fresh queue of at least
/// `capacity` bytes; both halves share one liveness flag, which starts out
/// `true`.
pub fn new(capacity: usize) -> (r: (PerThreadProducer, PerThreadConsumer))
    requires
        0 < capacity <= usize::MAX / 4 + 1,
    ensures
        r.0.producer.capacity() >= capacity,
        r.0.producer.written() == 0,
        r.0.alive == r.1.alive,
{
    let (producer, consumer) = crate::queue2::new(capacity);
    let alive = Arc::new(AtomicBool::new(true));
    let pt_producer = PerThreadProducer { producer, alive: alive.clone() };
    let pt_consumer = PerThreadConsumer { consumer: new_mutex(consumer), alive };
    (pt_producer, pt_consumer)
}

} // verus!
