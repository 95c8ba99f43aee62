//! Bounded SPSC (single-producer, single-consumer) byte queue.
//!
//! A power-of-two ring of `capacity` logical bytes backed by `2 * capacity`
//! physical cells, so that every write of at most `capacity` bytes is
//! contiguous: it starts at `position & mask`, which is below `capacity`,
//! and ends at most `capacity` cells later. No wrap-around bookkeeping and no
//! waste bytes are needed.
//!
//! The producer publishes its position with a release store after filling
//! the cells; the consumer publishes its own after reading them. Each side
//! caches the other's position and reloads it only when the cached value
//! does not suffice.
//!
//! Each [`Consumer::read`] must take exactly as many bytes as the matching
//! [`Producer::write`] wrote; [`Consumer::peek`] may look at a prefix of the
//! next chunk without consuming it.

use crate::ring::{is_power_of_two, lemma_mask_is_mod, next_power_of_two};
use core::sync::atomic::{AtomicU8, AtomicUsize, Ordering};
use std::sync::Arc;
use vstd::prelude::*;

verus! {

/// Errors returned by [`Producer::write`].
#[derive(Debug, Clone, Copy, PartialEq, Eq, Structural)]
pub enum WriteError {
    /// The requested size exceeds the queue capacity.
    OversizedWrite,
    /// The queue has no room for the requested size right now.
    QueueFull,
}

/// Whether a write of `n` bytes fits a queue of `capacity` bytes whose
/// producer stands at `written` and knows the consumer to stand at
/// `seen_read`: the chunk is no longer than the capacity, the room left is
/// at least `n`, and the new position still fits a `usize`.
pub open spec fn write_fits(capacity: nat, written: nat, seen_read: nat, n: nat) -> bool {
    &&& n <= capacity
    &&& n <= capacity - (written - seen_read)
    &&& written + n <= usize::MAX
}

/// State shared by the two halves.
struct QueueInner {
    /// The physical cells, `2 * capacity` of them.
    buf: Vec<AtomicU8>,
    /// Power-of-two logical capacity.
    capacity: usize,
    /// `capacity - 1`.
    mask: usize,
    /// Write position, stored by the producer only.
    write_pos: AtomicUsize,
    /// Read position, stored by the consumer only.
    read_pos: AtomicUsize,
}

impl QueueInner {
    /// Loads the consumer's published read position (acquire).
    fn load_read_pos(&self) -> usize {
        self.read_pos.load(Ordering::Acquire)
    }

    /// Publishes the producer's write position (release).
    fn publish_write_pos(&self, pos: usize) {
        self.write_pos.store(pos, Ordering::Release);
    }

    /// The shape every queue has from its creation on.
    spec fn wf(&self) -> bool {
        &&& is_power_of_two(self.capacity)
        &&& self.capacity <= usize::MAX / 2
        &&& self.mask == self.capacity - 1
        &&& self.buf@.len() == 2 * self.capacity
    }
}

/// Producer half of the queue (owned by one logging thread).
pub struct Producer {
    /// Shared queue state.
    inner: Arc<QueueInner>,
    /// Last read position seen from the consumer.
    cached_read: usize,
    /// Current write position.
    write: usize,
}

/// Consumer half of the queue (owned by the backend worker).
pub struct Consumer {
    /// Shared queue state.
    inner: Arc<QueueInner>,
    /// Last write position seen from the producer.
    cached_write: usize,
    /// Current read position.
    read: usize,
    /// The bytes consumed so far, as this consumer read them.
    taken: Ghost<Seq<u8>>,
}

impl Producer {
    #[verifier::type_invariant]
    spec fn inv(&self) -> bool {
        &&& self.inner.wf()
        &&& self.cached_read <= self.write
        &&& self.write - self.cached_read <= self.inner.capacity
    }

    /// The logical capacity in bytes.
    pub closed spec fn capacity(&self) -> nat {
        self.inner.capacity as nat
    }

    /// The number of bytes written so far.
    pub closed spec fn written(&self) -> nat {
        self.write as nat
    }

    /// The consumer's read position as last seen by this producer.
    pub closed spec fn seen_read(&self) -> nat {
        self.cached_read as nat
    }

    /// Writes `data` into the queue as one chunk.
    ///
    /// Fails with [`WriteError::OversizedWrite`] when `data` is longer than
    /// the capacity, and with [`WriteError::QueueFull`] when there is no
    /// room for it right now. The consumer's position is reloaded only
    /// when the cached one leaves too little room; a reloaded position that
    /// lies before the cached one or past the write position is ignored.
    pub fn write(&mut self, data: &[u8]) -> (r: Result<(), WriteError>)
        ensures
            final(self).capacity() == old(self).capacity(),
            old(self).seen_read() <= final(self).seen_read() <= old(self).written(),
            r is Ok <==> write_fits(
                old(self).capacity(),
                old(self).written(),
                final(self).seen_read(),
                data@.len(),
            ),
            r is Ok ==> final(self).written() == old(self).written() + data@.len(),
            r is Err ==> final(self).written() == old(self).written(),
            final(self).seen_read() <= final(self).written() <= final(self).seen_read()
                + final(self).capacity(),
            r == Err::<(), WriteError>(WriteError::OversizedWrite) <==> data@.len() > old(self).capacity(),
            r == Err::<(), WriteError>(WriteError::QueueFull) <==> data@.len() <= old(self).capacity()
                && !write_fits(old(self).capacity(), old(self).written(), final(self).seen_read(), data@.len()),
    {
        let n = data.len();
        let offset = match self.try_reserve(n) {
            Some(offset) => offset,
            None => {
                proof {
                    use_type_invariant(&*self);
                }
                return if n > self.inner.capacity {
                    Err(WriteError::OversizedWrite)
                } else {
                    Err(WriteError::QueueFull)
                };
            },
        };
        proof {
            use_type_invariant(&*self);
        }
        let mut i: usize = 0;
        while i < n
            invariant
                i <= n,
                n == data@.len(),
                offset + n <= 2 * self.inner.capacity,
                self.inner.wf(),
            decreases n - i,
        {
            self.inner.buf[offset + i].store(data[i], Ordering::Relaxed);
            i = i + 1;
        }
        self.commit(n);
        Ok(())
    }

    /// Finds room for `n` contiguous bytes and returns the cell where they
    /// start, or `None` when `n` exceeds the capacity or does not fit now.
    ///
    /// The consumer's position is reloaded only when the cached one leaves
    /// too little room; a reloaded position that lies before the cached one
    /// or past the write position is ignored. The cells run from the
    /// returned offset for `n` cells, within the doubled allocation.
    fn try_reserve(&mut self, n: usize) -> (r: Option<usize>)
        ensures
            final(self).capacity() == old(self).capacity(),
            final(self).written() == old(self).written(),
            old(self).seen_read() <= final(self).seen_read() <= old(self).written(),
            r is Some <==> write_fits(old(self).capacity(), old(self).written(), final(self).seen_read(), n as nat),
            r matches Some(offset) ==> offset == old(self).written() % old(self).capacity()
                && offset + n <= 2 * old(self).capacity(),
    {
        proof {
            use_type_invariant(&*self);
        }
        let capacity = self.inner.capacity;
        if n > capacity {
            return None;
        }
        let mut available = capacity - (self.write - self.cached_read);
        if available < n {
            let seen = self.inner.load_read_pos();
            if self.cached_read <= seen && seen <= self.write {
                self.cached_read = seen;
            }
            available = capacity - (self.write - self.cached_read);
            if available < n {
                return None;
            }
        }
        if self.write > usize::MAX - n {
            return None;
        }
        proof {
            lemma_mask_is_mod(self.write, capacity);
        }
        Some(self.write & self.inner.mask)
    }

    /// Advances the write position by `n` bytes and publishes it.
    fn commit(&mut self, n: usize)
        requires
            write_fits(old(self).capacity(), old(self).written(), old(self).seen_read(), n as nat),
        ensures
            final(self).written() == old(self).written() + n,
            final(self).seen_read() == old(self).seen_read(),
            final(self).capacity() == old(self).capacity(),
    {
        proof {
            use_type_invariant(&*self);
        }
        self.write = self.write + n;
        self.inner.publish_write_pos(self.write);
    }
}

impl Consumer {
    #[verifier::type_invariant]
    spec fn inv(&self) -> bool {
        &&& self.inner.wf()
        &&& self.read <= self.cached_write
        &&& self.cached_write - self.read <= self.inner.capacity
    }

    /// The logical capacity in bytes.
    pub closed spec fn capacity(&self) -> nat {
        self.inner.capacity as nat
    }

    /// The number of bytes consumed so far.
    pub closed spec fn consumed(&self) -> nat {
        self.read as nat
    }

    /// The producer's write position as last seen by this consumer.
    pub closed spec fn seen_write(&self) -> nat {
        self.cached_write as nat
    }

    /// The bytes consumed so far, in order, as this consumer read them.
    pub closed spec fn taken(&self) -> Seq<u8> {
        self.taken@
    }

    /// The bytes known to be ready for reading.
    pub open spec fn ready(&self) -> nat {
        (self.seen_write() - self.consumed()) as nat
    }

    /// Returns the number of bytes available for reading.
    ///
    /// The producer's position is reloaded only when no byte is known to be
    /// ready; a reloaded position behind the read position, or more than a
    /// capacity ahead of it, is ignored.
    pub fn available(&mut self) -> (r: usize)
        ensures
            r == final(self).ready(),
            final(self).taken() == old(self).taken(),
            final(self).consumed() == old(self).consumed(),
            final(self).capacity() == old(self).capacity(),
            old(self).seen_write() <= final(self).seen_write(),
            old(self).ready() > 0 ==> final(self).seen_write() == old(self).seen_write(),
            r <= final(self).capacity(),
            final(self).consumed() <= final(self).seen_write() <= final(self).consumed()
                + final(self).capacity(),
    {
        proof {
            use_type_invariant(&*self);
        }
        if self.cached_write > self.read {
            return self.cached_write - self.read;
        }
        let seen = self.inner.write_pos.load(Ordering::Acquire);
        if self.read <= seen && seen - self.read <= self.inner.capacity {
            self.cached_write = seen;
        }
        self.cached_write - self.read
    }

    /// Copies `len` bytes starting at the read position.
    fn copy_out(&self, len: usize) -> (v: Vec<u8>)
        requires
            len <= self.capacity(),
        ensures
            v@.len() == len,
    {
        proof {
            use_type_invariant(self);
            lemma_mask_is_mod(self.read, self.inner.capacity);
        }
        let offset = self.read & self.inner.mask;
        let mut v: Vec<u8> = Vec::new();
        let mut i: usize = 0;
        while i < len
            invariant
                i <= len,
                len <= self.inner.capacity,
                offset < self.inner.capacity,
                self.inner.wf(),
                v@.len() == i,
            decreases len - i,
        {
            let b = self.inner.buf[offset + i].load(Ordering::Relaxed);
            v.push(b);
            i = i + 1;
        }
        v
    }

    /// Returns a copy of the next `len` bytes without consuming them, or
    /// `None` when fewer than `len` bytes are available.
    ///
    /// `len` may be shorter than the next chunk (a record header, say).
    pub fn peek(&mut self, len: usize) -> (r: Option<Vec<u8>>)
        ensures
            final(self).consumed() == old(self).consumed(),
            final(self).taken() == old(self).taken(),
            final(self).capacity() == old(self).capacity(),
            old(self).seen_write() <= final(self).seen_write(),
            old(self).ready() > 0 ==> final(self).seen_write() == old(self).seen_write(),
            r is Some <==> len <= final(self).ready(),
            r matches Some(v) ==> v@.len() == len,
            final(self).consumed() <= final(self).seen_write() <= final(self).consumed()
                + final(self).capacity(),
    {
        let avail = self.available();
        if len > avail {
            return None;
        }
        Some(self.copy_out(len))
    }

    /// Returns a copy of the next `len` bytes and consumes them, or `None`
    /// (consuming nothing) when fewer than `len` bytes are available.
    ///
    /// `len` must be the size of the next chunk the producer wrote.
    pub fn read(&mut self, len: usize) -> (r: Option<Vec<u8>>)
        ensures
            final(self).capacity() == old(self).capacity(),
            old(self).seen_write() <= final(self).seen_write(),
            r is Some <==> len <= final(self).seen_write() - old(self).consumed(),
            r matches Some(v) ==> v@.len() == len && final(self).consumed() == old(self).consumed()
                + len,
            r is None ==> final(self).consumed() == old(self).consumed() && final(self).ready() < len,
            r matches Some(v) ==> final(self).taken() == old(self).taken() + v@,
            r is None ==> final(self).taken() == old(self).taken(),
            final(self).consumed() <= final(self).seen_write() <= final(self).consumed()
                + final(self).capacity(),
    {
        let avail = self.available();
        if len > avail {
            return None;
        }
        proof {
            use_type_invariant(&*self);
        }
        let v = self.copy_out(len);
        self.advance(len, Ghost(v@));
        Some(v)
    }

    /// Consumes `n` bytes, handing their cells back to the producer;
    /// `bytes` are those bytes as the caller read them.
    pub(crate) fn advance(&mut self, n: usize, bytes: Ghost<Seq<u8>>)
        requires
            n <= old(self).ready(),
            bytes@.len() == n,
        ensures
            final(self).taken() == old(self).taken() + bytes@,
            final(self).consumed() == old(self).consumed() + n,
            final(self).seen_write() == old(self).seen_write(),
            final(self).capacity() == old(self).capacity(),
    {
        proof {
            use_type_invariant(&*self);
        }
        self.read = self.read + n;
        self.taken = Ghost(self.taken@ + bytes@);
        self.inner.read_pos.store(self.read, Ordering::Release);
    }
}

/// The bytes `after` has consumed since it stood as `before`.
pub open spec fn newly_taken(before: Consumer, after: Consumer) -> Seq<u8> {
    after.taken().skip(before.taken().len() as int)
}

/// Creates a queue of at least `capacity` bytes, split into its producer
/// and consumer halves.
///
/// The capacity is rounded up to the next power of two; the allocation is
/// twice that. A capacity of 0, or one whose doubled rounding overflows
/// `usize`, is refused by the precondition.
pub fn new(capacity: usize) -> (r: (Producer, Consumer))
    requires
        0 < capacity <= usize::MAX / 4 + 1,
    ensures
        is_power_of_two(r.0.capacity() as usize),
        capacity <= r.0.capacity() < 2 * capacity,
        r.1.capacity() == r.0.capacity(),
        r.0.written() == 0 && r.0.seen_read() == 0,
        r.1.consumed() == 0 && r.1.seen_write() == 0,
        r.1.taken() == Seq::<u8>::empty(),
{
    let cap = next_power_of_two(capacity);
    let mut buf: Vec<AtomicU8> = Vec::new();
    let mut i: usize = 0;
    while i < 2 * cap
        invariant
            i <= 2 * cap,
            cap <= usize::MAX / 2,
            buf@.len() == i,
        decreases 2 * cap - i,
    {
        buf.push(AtomicU8::new(0));
        i = i + 1;
    }
    let inner = Arc::new(
        QueueInner {
            buf,
            capacity: cap,
            mask: cap - 1,
            write_pos: AtomicUsize::new(0),
            read_pos: AtomicUsize::new(0),
        },
    );
    let producer = Producer { inner: inner.clone(), cached_read: 0, write: 0 };
    let consumer = Consumer { inner, cached_write: 0, read: 0, taken: Ghost(Seq::empty()) };
    (producer, consumer)
}

} // verus!
