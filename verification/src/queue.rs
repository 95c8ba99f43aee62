//! Bounded SPSC (single-producer, single-consumer) byte queue over a ring of
//! exactly `capacity` cells.
//!
//! A reservation must be contiguous: when the `n` bytes would run past the
//! end of the ring, the producer skips the cells up to the end (the waste)
//! and reserves at the start instead. The consumer sees the waste as
//! available bytes and skips them itself.
//!
//! Each half caches the other's position and reloads it only when the
//! cached one does not suffice.

use crate::ring::{is_power_of_two, lemma_mask_is_mod, next_power_of_two};
use core::sync::atomic::{AtomicU8, AtomicUsize, Ordering};
use std::sync::Arc;
use vstd::prelude::*;

verus! {

/// State shared by the two halves.
struct QueueInner {
    /// The ring, `capacity` cells.
    buf: Vec<AtomicU8>,
    /// Power-of-two capacity.
    capacity: usize,
    /// `capacity - 1`.
    mask: usize,
    /// Write position, stored by the producer only.
    write_pos: AtomicUsize,
    /// Read position, stored by the consumer only.
    read_pos: AtomicUsize,
}

impl QueueInner {
    /// The shape every queue has from its creation on.
    spec fn wf(&self) -> bool {
        &&& is_power_of_two(self.capacity)
        &&& self.capacity <= usize::MAX / 2
        &&& self.mask == self.capacity - 1
        &&& self.buf@.len() == self.capacity
    }
}

/// Where a reservation of `n` bytes puts the write position, for a ring of
/// `capacity` cells whose producer stands at `written` and knows the
/// consumer to stand at `seen_read`; `None` when it cannot be made.
///
/// It fails when `n` exceeds the capacity or the room left; when the `n`
/// bytes would run past the end of the ring, the cells up to the end are
/// skipped, and the room must then hold them as well. It also fails when
/// the position after the chunk would not fit a `usize`.
pub open spec fn reserve_position(capacity: nat, written: nat, seen_read: nat, n: nat) -> Option<nat> {
    let room = capacity - (written - seen_read);
    let start = written % capacity;
    if n > capacity || room < n {
        None
    } else if start + n > capacity {
        let waste = capacity - start;
        if room < waste + n || written + waste + n > usize::MAX {
            None
        } else {
            Some((written + waste) as nat)
        }
    } else if written + n > usize::MAX {
        None
    } else {
        Some(written)
    }
}

/// Producer half of the queue (owned by one logging thread).
pub struct Producer {
    /// Shared queue state.
    inner: Arc<QueueInner>,
    /// Last read position seen from the consumer.
    cached_read: usize,
    /// Current write position.
    write: usize,
    /// Bytes reserved at the write position and not yet committed.
    reserved: usize,
}

/// Consumer half of the queue (owned by the backend worker).
pub struct Consumer {
    /// Shared queue state.
    inner: Arc<QueueInner>,
    /// Last write position seen from the producer.
    cached_write: usize,
    /// Current read position.
    read: usize,
}

impl Producer {
    #[verifier::type_invariant]
    spec fn inv(&self) -> bool {
        &&& self.inner.wf()
        &&& self.cached_read <= self.write
        &&& self.write - self.cached_read + self.reserved <= self.inner.capacity
        &&& self.write % self.inner.capacity + self.reserved <= self.inner.capacity
        &&& self.write + self.reserved <= usize::MAX
    }

    /// The capacity in bytes.
    pub closed spec fn capacity(&self) -> nat {
        self.inner.capacity as nat
    }

    /// The write position: bytes committed or skipped so far.
    pub closed spec fn written(&self) -> nat {
        self.write as nat
    }

    /// The consumer's read position as last seen by this producer.
    pub closed spec fn seen_read(&self) -> nat {
        self.cached_read as nat
    }

    /// The bytes reserved and not yet committed.
    pub closed spec fn reserved(&self) -> nat {
        self.reserved as nat
    }

    /// Returns the number of bytes reserved and not yet committed.
    pub fn reserved_len(&self) -> (r: usize)
        ensures
            r == self.reserved(),
    {
        self.reserved
    }

    /// Tries to reserve `n` contiguous bytes; returns their offset in the
    /// ring, or `None` when there is no room (the record is then dropped).
    ///
    /// The consumer's position is reloaded when the cached one leaves too
    /// little room; a reloaded position before the cached one or past the
    /// write position is ignored. A reservation that would run past the end
    /// of the ring skips to its start. A new reservation replaces one that
    /// was not committed.
    pub fn try_reserve(&mut self, n: usize) -> (r: Option<usize>)
        ensures
            final(self).capacity() == old(self).capacity(),
            old(self).seen_read() <= final(self).seen_read() <= old(self).written(),
            match reserve_position(old(self).capacity(), old(self).written(), final(self).seen_read(), n as nat) {
                Some(w) => r == Some((w % old(self).capacity()) as usize) && final(self).written() == w
                    && final(self).reserved() == n && w % old(self).capacity() + n <= old(self).capacity(),
                None => r is None && final(self).written() == old(self).written() && final(self).reserved() == 0,
            },
    {
        proof {
            use_type_invariant(&*self);
        }
        self.reserved = 0;
        let capacity = self.inner.capacity;
        proof {
            lemma_mask_is_mod(self.write, capacity);
        }
        if n > capacity {
            return None;
        }
        let mut available = capacity - (self.write - self.cached_read);
        if available < n {
            self.refresh_read();
            available = capacity - (self.write - self.cached_read);
            if available < n {
                return None;
            }
        }
        proof {
            use_type_invariant(&*self);
            lemma_mask_is_mod(self.write, capacity);
        }
        let start = self.write & self.inner.mask;
        if start + n > capacity {
            let waste = capacity - start;
            if capacity - (self.write - self.cached_read) < waste + n {
                self.refresh_read();
                if capacity - (self.write - self.cached_read) < waste + n {
                    return None;
                }
            }
            if self.write > usize::MAX - waste - n {
                return None;
            }
            let next = self.write + waste;
            proof {
                vstd::arithmetic::div_mod::lemma_fundamental_div_mod(self.write as int, capacity as int);
                vstd::arithmetic::div_mod::lemma_mod_multiples_basic(
                    (self.write / capacity + 1) as int,
                    capacity as int,
                );
                assert(next == (self.write / capacity + 1) * capacity) by (nonlinear_arith)
                    requires
                        self.write == capacity * (self.write / capacity) + self.write % capacity,
                        waste == capacity - self.write % capacity,
                        next == self.write + waste,
                ;
                lemma_mask_is_mod(next, capacity);
            }
            proof {
                use_type_invariant(&*self);
            }
            self.write = next;
        } else if self.write > usize::MAX - n {
            return None;
        }
        proof {
            lemma_mask_is_mod(self.write, capacity);
        }
        let offset = self.write & self.inner.mask;
        self.reserved = n;
        Some(offset)
    }

    /// Reloads the consumer's position, keeping the cached one when the
    /// loaded value lies before it or past the write position.
    fn refresh_read(&mut self)
        ensures
            old(self).seen_read() <= final(self).seen_read() <= old(self).written(),
            final(self).written() == old(self).written(),
            final(self).reserved() == old(self).reserved(),
            final(self).capacity() == old(self).capacity(),
    {
        proof {
            use_type_invariant(&*self);
        }
        let seen = self.inner.read_pos.load(Ordering::Acquire);
        if self.cached_read <= seen && seen <= self.write {
            self.cached_read = seen;
        }
    }

    /// Writes `data` into the reserved bytes and commits them, making them
    /// visible to the consumer; the reservation ends.
    pub fn commit(&mut self, data: &[u8])
        requires
            data@.len() <= old(self).reserved(),
        ensures
            final(self).written() == old(self).written() + data@.len(),
            final(self).seen_read() == old(self).seen_read(),
            final(self).capacity() == old(self).capacity(),
            final(self).reserved() == 0,
    {
        proof {
            use_type_invariant(&*self);
            lemma_mask_is_mod(self.write, self.inner.capacity);
        }
        let n = data.len();
        let offset = self.write & self.inner.mask;
        let mut i: usize = 0;
        while i < n
            invariant
                i <= n,
                n == data@.len(),
                offset + n <= self.inner.capacity,
                self.inner.wf(),
            decreases n - i,
        {
            self.inner.buf[offset + i].store(data[i], Ordering::Relaxed);
            i = i + 1;
        }
        let next = self.write + n;
        proof {
            lemma_mask_is_mod(next, self.inner.capacity);
        }
        self.reserved = 0;
        self.write = next;
        self.inner.write_pos.store(self.write, Ordering::Release);
    }
}

impl Consumer {
    #[verifier::type_invariant]
    spec fn inv(&self) -> bool {
        &&& self.inner.wf()
        &&& self.read <= self.cached_write
        &&& self.cached_write - self.read <= self.inner.capacity
    }

    /// The capacity in bytes.
    pub closed spec fn capacity(&self) -> nat {
        self.inner.capacity as nat
    }

    /// The read position: bytes consumed or skipped so far.
    pub closed spec fn consumed(&self) -> nat {
        self.read as nat
    }

    /// The producer's write position as last seen by this consumer.
    pub closed spec fn seen_write(&self) -> nat {
        self.cached_write as nat
    }

    /// The bytes known to be ready for reading.
    pub open spec fn ready(&self) -> nat {
        (self.seen_write() - self.consumed()) as nat
    }

    /// Returns the number of bytes available for reading (skipped cells
    /// included).
    ///
    /// The producer's position is reloaded only when no byte is known to be
    /// ready; a reloaded position behind the read position, or more than a
    /// capacity ahead of it, is ignored.
    pub fn available(&mut self) -> (r: usize)
        ensures
            r == final(self).ready(),
            final(self).consumed() == old(self).consumed(),
            final(self).capacity() == old(self).capacity(),
            old(self).seen_write() <= final(self).seen_write(),
            old(self).ready() > 0 ==> final(self).seen_write() == old(self).seen_write(),
            final(self).consumed() <= final(self).seen_write() <= final(self).consumed()
                + final(self).capacity(),
    {
        proof {
            use_type_invariant(&*self);
        }
        let avail = self.cached_write - self.read;
        if avail > 0 {
            return avail;
        }
        let seen = self.inner.write_pos.load(Ordering::Acquire);
        if self.read <= seen && seen - self.read <= self.inner.capacity {
            self.cached_write = seen;
        }
        self.cached_write - self.read
    }

    /// Returns a copy of the `len` bytes at the read position, joining the
    /// tail and the head of the ring when they wrap around its end.
    pub fn read_bytes(&self, len: usize) -> (v: Vec<u8>)
        requires
            len <= self.ready(),
        ensures
            v@.len() == len,
    {
        proof {
            use_type_invariant(self);
            lemma_mask_is_mod(self.read, self.inner.capacity);
        }
        let capacity = self.inner.capacity;
        let start = self.read & self.inner.mask;
        let mut v: Vec<u8> = Vec::new();
        let mut i: usize = 0;
        while i < len
            invariant
                i <= len,
                len <= capacity,
                start < capacity,
                capacity == self.inner.capacity,
                self.inner.wf(),
                v@.len() == i,
            decreases len - i,
        {
            let cell = if start + i < capacity {
                start + i
            } else {
                start + i - capacity
            };
            v.push(self.inner.buf[cell].load(Ordering::Relaxed));
            i = i + 1;
        }
        v
    }

    /// Consumes `n` bytes, handing their cells back to the producer.
    pub fn advance(&mut self, n: usize)
        requires
            n <= old(self).ready(),
        ensures
            final(self).consumed() == old(self).consumed() + n,
            final(self).seen_write() == old(self).seen_write(),
            final(self).capacity() == old(self).capacity(),
    {
        proof {
            use_type_invariant(&*self);
        }
        self.read = self.read + n;
        self.inner.read_pos.store(self.read, Ordering::Release);
    }
}

/// Creates a queue of at least `capacity` bytes, split into its producer
/// and consumer halves.
///
/// The capacity is rounded up to the next power of two. A capacity of 0,
/// or one whose rounding overflows, is refused by the precondition.
pub fn bounded(capacity: usize) -> (r: (Producer, Consumer))
    requires
        0 < capacity <= usize::MAX / 4 + 1,
    ensures
        is_power_of_two(r.0.capacity() as usize),
        capacity <= r.0.capacity() < 2 * capacity,
        r.1.capacity() == r.0.capacity(),
        r.0.written() == 0 && r.0.seen_read() == 0 && r.0.reserved() == 0,
        r.1.consumed() == 0 && r.1.seen_write() == 0,
{
    let cap = next_power_of_two(capacity);
    let mut buf: Vec<AtomicU8> = Vec::new();
    let mut i: usize = 0;
    while i < cap
        invariant
            i <= cap,
            buf@.len() == i,
        decreases cap - i,
    {
        buf.push(AtomicU8::new(0));
        i = i + 1;
    }
    let inner = Arc::new(
        QueueInner {
            buf,
            capacity: cap,
            mask: cap - 1,
            write_pos: AtomicUsize::new(0),
            read_pos: AtomicUsize::new(0),
        },
    );
    proof {
        lemma_mask_is_mod(0, cap);
    }
    let producer = Producer { inner: inner.clone(), cached_read: 0, write: 0, reserved: 0 };
    let consumer = Consumer { inner, cached_write: 0, read: 0 };
    (producer, consumer)
}

} // verus!
