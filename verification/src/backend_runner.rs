//! The backend worker's state and decisions.
//!
//! [`BackendRunner`] holds what the worker thread shares with the backend:
//! the shutdown flag, the per-thread consumers and the error counters. The
//! worker's loop polls every consumer, takes up to
//! [`MAX_BATCH_PER_CONSUMER`] records from each, and then decides, through
//! [`BackendRunner::after_pass`], whether to stop, to go on at once, or to
//! yield or sleep first.

use crate::bytes::{lemma_le_value_bound, lemma_radix_values};
use crate::decode::{decode_record, record_outcome, resolver_total, spec_decode_record, DecodeError, RawDecodedRecord};
use crate::per_thread_queue::{new_mutex, PerThreadConsumer};
use crate::queue2::{newly_taken, Consumer};
use crate::record::{spec_read_header, RecordHeader};
use core::sync::atomic::{AtomicBool, AtomicU64};
use core::time::Duration;
use std::sync::{Arc, Mutex};
use vstd::prelude::*;
use vstd::slice::slice_subrange;

verus! {

/// Most records taken from one consumer per pass, so that one busy thread
/// cannot starve the others.
pub const MAX_BATCH_PER_CONSUMER: usize = 32;

/// State shared by the backend and its worker thread.
pub struct BackendRunner {
    /// Set by the backend to ask the worker to stop.
    pub shutdown_flag: AtomicBool,
    /// The per-thread consumers; a consumer is added when a thread first
    /// logs, and retired once its thread has exited and its queue is empty.
    pub consumers: Mutex<Vec<Arc<PerThreadConsumer>>>,
    /// Sink writes that failed.
    pub write_errors: AtomicU64,
    /// Sink flushes that failed.
    pub flush_errors: AtomicU64,
    /// Sink panics caught while writing a record.
    pub panic_count: AtomicU64,
    /// Records dropped because a queue was full or the record too large.
    pub dropped_records: AtomicU64,
    /// Empty passes that yield before the worker starts sleeping.
    idle_yield_rounds: u32,
    /// How long an idle worker sleeps.
    idle_sleep: Duration,
    /// Whether the worker drains every queue before it stops.
    wait_for_drain: bool,
}

/// What the worker does after a pass over the queues.
#[derive(Debug, Clone, Copy, PartialEq, Eq, Structural)]
pub enum NextStep {
    /// Stop the worker.
    Exit,
    /// Start the next pass at once.
    Poll,
    /// Yield the thread, then start the next pass.
    Yield,
    /// Sleep for the idle duration, then start the next pass.
    Sleep,
}

impl BackendRunner {
    /// The configured number of yielding idle passes.
    pub closed spec fn spec_idle_yield_rounds(&self) -> u32 {
        self.idle_yield_rounds
    }

    /// The configured idle sleep.
    pub closed spec fn spec_idle_sleep(&self) -> Duration {
        self.idle_sleep
    }

    /// Whether the worker drains every queue before it stops.
    pub closed spec fn spec_wait_for_drain(&self) -> bool {
        self.wait_for_drain
    }

    /// Creates the runner state: no consumers, counters at zero, shutdown
    /// not requested. No thread is started.
    pub fn new(idle_yield_rounds: u32, idle_sleep: Duration, wait_for_drain: bool) -> (r: Self)
        ensures
            r.spec_idle_yield_rounds() == idle_yield_rounds,
            r.spec_idle_sleep() == idle_sleep,
            r.spec_wait_for_drain() == wait_for_drain,
    {
        BackendRunner {
            shutdown_flag: AtomicBool::new(false),
            consumers: new_mutex(Vec::new()),
            write_errors: AtomicU64::new(0),
            flush_errors: AtomicU64::new(0),
            panic_count: AtomicU64::new(0),
            dropped_records: AtomicU64::new(0),
            idle_yield_rounds,
            idle_sleep,
            wait_for_drain,
        }
    }

    /// Returns the configured idle sleep.
    pub fn idle_sleep(&self) -> (r: Duration)
        ensures
            r == self.spec_idle_sleep(),
    {
        self.idle_sleep
    }

    /// Whether the worker stops at the start of a pass: shutdown was asked
    /// for and the queues need not be drained.
    pub open spec fn spec_exits_before_pass(&self, shutting_down: bool) -> bool {
        shutting_down && !self.spec_wait_for_drain()
    }

    /// Returns whether the worker stops before polling, given whether
    /// shutdown was asked for.
    pub fn exits_before_pass(&self, shutting_down: bool) -> (r: bool)
        ensures
            r == self.spec_exits_before_pass(shutting_down),
    {
        shutting_down && !self.wait_for_drain
    }

    /// Decides what follows a pass, given whether shutdown was asked for
    /// before it, whether a queue still holds bytes after it, whether it
    /// processed any record, and the number of empty passes before it;
    /// returns the step and the new number of empty passes.
    ///
    /// While shutting down, the worker stops once no queue holds bytes and
    /// otherwise polls again at once. Else a pass with work resets the count
    /// of empty passes and polls again; an empty pass counts one more
    /// (saturating), and yields while the count is within the configured
    /// rounds, sleeping after that.
    pub fn after_pass(&self, shutting_down: bool, any_pending: bool, did_work: bool, idle_streak: u32) -> (r: (
        NextStep,
        u32,
    ))
        ensures
            shutting_down ==> r.1 == idle_streak && r.0 == (if any_pending {
                NextStep::Poll
            } else {
                NextStep::Exit
            }),
            !shutting_down && did_work ==> r == (NextStep::Poll, 0u32),
            !shutting_down && !did_work ==> {
                &&& r.1 == (if idle_streak == u32::MAX {
                    u32::MAX
                } else {
                    (idle_streak + 1) as u32
                })
                &&& r.0 == (if r.1 <= self.spec_idle_yield_rounds() {
                    NextStep::Yield
                } else {
                    NextStep::Sleep
                })
            },
    {
        if shutting_down {
            if !any_pending {
                return (NextStep::Exit, idle_streak);
            }
            return (NextStep::Poll, idle_streak);
        }
        if did_work {
            (NextStep::Poll, 0)
        } else {
            let streak = idle_streak.saturating_add(1);
            if streak <= self.idle_yield_rounds {
                (NextStep::Yield, streak)
            } else {
                (NextStep::Sleep, streak)
            }
        }
    }
}

/// Whether a registered consumer stays registered after a pass: while its
/// thread lives, or while its queue still holds unread bytes. A consumer is
/// retired only once both are over, so no logged record is lost with it.
pub fn keeps_consumer(alive: bool, available: usize) -> (r: bool)
    ensures
        r == (alive || available > 0),
        !r ==> !alive && available == 0,
{
    alive || available > 0
}

/// The length of the record whose header is `header`: the header itself
/// and its encoded arguments, if that fits a `usize`.
pub open spec fn spec_record_len(header: RecordHeader) -> Option<usize> {
    if RecordHeader::SIZE + header.encoded_args_size <= usize::MAX {
        Some((RecordHeader::SIZE + header.encoded_args_size) as usize)
    } else {
        None
    }
}

/// Returns the length of the record that `header` opens.
pub fn record_len(header: &RecordHeader) -> (r: Option<usize>)
    ensures
        r == spec_record_len(*header),
{
    let size = header.encoded_args_size as usize;
    if size > usize::MAX - RecordHeader::SIZE {
        None
    } else {
        Some(RecordHeader::SIZE + size)
    }
}

/// The length of the record that starts `bytes`, as its header announces
/// it: the header and its argument bytes.
pub open spec fn announced_len(bytes: Seq<u8>) -> Option<nat> {
    match spec_read_header(bytes) {
        Some(h) => Some((RecordHeader::SIZE + h.encoded_args_size) as nat),
        None => None,
    }
}

/// Whether `bytes` are one whole record: a header and exactly the argument
/// bytes it announces.
pub open spec fn whole_record(bytes: Seq<u8>) -> bool {
    announced_len(bytes) == Some(bytes.len())
}

/// Whether `bytes` are one whole record and `raw` is what decoding it gives,
/// `resolve` turning user-defined arguments into text.
pub open spec fn decodes_to<F: Fn(u64, &[u8]) -> Option<String>>(bytes: Seq<u8>, raw: RawDecodedRecord, resolve: F) -> bool {
    whole_record(bytes) && match spec_decode_record(bytes) {
        Ok((h, fs, stop)) => record_outcome(Ok(raw), h, fs, stop, resolve),
        Err(_) => false,
    }
}

/// Whether some `len` consumed bytes are one whole record that decodes to `raw`.
pub open spec fn decoded_from_consumed<F: Fn(u64, &[u8]) -> Option<String>>(len: int, raw: RawDecodedRecord, resolve: F) -> bool {
    exists|bytes: Seq<u8>| bytes.len() == len && #[trigger] decodes_to(bytes, raw, resolve)
}

/// The length of the record to take from `ready` queued bytes that begin
/// with `head`: the length its header announces, if that many are ready.
pub open spec fn spec_record_to_take(head: Seq<u8>, ready: usize) -> Option<usize> {
    match announced_len(head) {
        Some(n) => if n <= ready {
            Some(n as usize)
        } else {
            None
        },
        None => None,
    }
}

/// Returns the length of the record to take when `ready` bytes are queued
/// and they begin with `head`: the header's length and the argument bytes
/// it announces, or `None` when `head` holds no header or fewer bytes are
/// ready than it announces.
pub fn record_to_take(head: &[u8], ready: usize) -> (r: Option<usize>)
    ensures
        r == spec_record_to_take(head@, ready),
{
    match RecordHeader::read_from(head) {
        None => None,
        Some(h) => {
            let size = h.encoded_args_size as usize;
            if ready < RecordHeader::SIZE || ready - RecordHeader::SIZE < size {
                None
            } else {
                Some(RecordHeader::SIZE + size)
            }
        },
    }
}

/// An announced length is at least a header and at most a header and
/// `u32::MAX` argument bytes; no header is announced on a platform whose
/// `usize` holds every 8-byte value.
proof fn lemma_announced_len_bound(bytes: Seq<u8>)
    ensures
        announced_len(bytes) matches Some(n) ==> RecordHeader::SIZE <= n < RecordHeader::SIZE
            + u32::MAX + 1,
        bytes.len() >= RecordHeader::SIZE && announced_len(bytes) is None ==> usize::MAX
            < 0xffff_ffff_ffff_ffff,
{
    if bytes.len() >= RecordHeader::SIZE {
        lemma_le_value_bound(bytes.subrange(8, 16));
        lemma_radix_values();
    }
}

/// The header of a record, and so its announced length, lies in its first
/// bytes: cutting `bytes` after them changes neither.
proof fn lemma_announced_len_prefix(bytes: Seq<u8>, len: nat)
    requires
        RecordHeader::SIZE <= len <= bytes.len(),
    ensures
        announced_len(bytes.subrange(0, len as int)) == announced_len(bytes),
{
    let p = bytes.subrange(0, len as int);
    assert(p.subrange(0, 8) =~= bytes.subrange(0, 8));
    assert(p.subrange(8, 16) =~= bytes.subrange(8, 16));
    assert(p.subrange(16, 20) =~= bytes.subrange(16, 20));
    assert(p.subrange(20, 24) =~= bytes.subrange(20, 24));
}

/// Whether `bytes` are one whole record whose decoding fails, `resolve`
/// turning user-defined arguments into text.
pub open spec fn rejects<F: Fn(u64, &[u8]) -> Option<String>>(bytes: Seq<u8>, resolve: F) -> bool {
    whole_record(bytes) && match spec_decode_record(bytes) {
        Ok((h, fs, stop)) => exists|e: DecodeError| #[trigger] record_outcome(Err(e), h, fs, stop, resolve),
        Err(_) => true,
    }
}

/// Whether some `len` consumed bytes are one whole record that fails to decode.
pub open spec fn rejected_from_consumed<F: Fn(u64, &[u8]) -> Option<String>>(len: int, resolve: F) -> bool {
    exists|bytes: Seq<u8>| bytes.len() == len && #[trigger] rejects(bytes, resolve)
}

/// Whether `ready` bytes can fall short of the next whole record. A header
/// announces at most `u32::MAX` argument bytes, so once a header and that
/// many bytes are ready, the next whole record surely is.
pub open spec fn lacks_whole_record(ready: nat) -> bool {
    ready < RecordHeader::SIZE + u32::MAX
}

/// Takes the next complete record from `consumer` and decodes it; `None`
/// when the queue holds less than a whole record, which is then left in
/// place.
///
/// Exactly one record is consumed when any is: its header and the argument
/// bytes that header announces, as [`record_to_take`] finds them in the
/// peeked bytes. A record that is read but fails to decode
/// is consumed and dropped, so that one malformed record cannot block the
/// queue.
pub fn try_read_one<F: Fn(u64, &[u8]) -> Option<String>>(consumer: &mut Consumer, resolve: &F) -> (r:
    Option<RawDecodedRecord>)
    requires
        resolver_total(*resolve),
    ensures
        final(consumer).capacity() == old(consumer).capacity(),
        final(consumer).consumed() == old(consumer).consumed() || final(consumer).consumed()
            >= old(consumer).consumed() + RecordHeader::SIZE,
        r is Some ==> final(consumer).consumed() >= old(consumer).consumed() + RecordHeader::SIZE,
        r matches Some(raw) ==> decoded_from_consumed(
            final(consumer).consumed() - old(consumer).consumed(),
            raw,
            *resolve,
        ),
        final(consumer).seen_write() - old(consumer).consumed() < RecordHeader::SIZE ==> r is None
            && final(consumer).consumed() == old(consumer).consumed(),
        final(consumer).taken() == old(consumer).taken() + newly_taken(*old(consumer), *final(consumer)),
        newly_taken(*old(consumer), *final(consumer)).len() == final(consumer).consumed() - old(
            consumer,
        ).consumed(),
        r matches Some(raw) ==> decodes_to(newly_taken(*old(consumer), *final(consumer)), raw, *resolve),
        r is None && final(consumer).consumed() != old(consumer).consumed() ==> rejects(
            newly_taken(*old(consumer), *final(consumer)),
            *resolve,
        ),
        r is None ==> {
            ||| final(consumer).consumed() == old(consumer).consumed() && lacks_whole_record(
                final(consumer).ready(),
            )
            ||| final(consumer).consumed() >= old(consumer).consumed() + RecordHeader::SIZE
                && rejected_from_consumed(
                final(consumer).consumed() - old(consumer).consumed(),
                *resolve,
            )
        },
{
    let avail = consumer.available();
    if avail < RecordHeader::SIZE {
        return None;
    }
    let head = match consumer.peek(RecordHeader::SIZE) {
        Some(b) => b,
        None => {
            return None;
        },
    };
    assert(consumer.ready() == avail);
    let total = match record_to_take(head.as_slice(), avail) {
        Some(n) => n,
        None => {
            proof {
                lemma_announced_len_bound(head@);
            }
            return None;
        },
    };
    proof {
        lemma_announced_len_bound(head@);
    }
    let first = match consumer.peek(total) {
        Some(b) => b,
        None => {
            return None;
        },
    };
    let copied = match record_to_take(first.as_slice(), total) {
        Some(n) => n == total,
        None => false,
    };
    let bytes = if copied {
        first
    } else {
        // The queued bytes no longer begin with the header just read: take
        // one copy of as many bytes as any record can need, and go by it.
        let n: usize = if (avail as u64) < 4294967319u64 {
            avail
        } else {
            4294967319u64 as usize
        };
        match consumer.peek(n) {
            Some(b) => b,
            None => {
                return None;
            },
        }
    };
    assert(consumer.ready() == avail);
    let len = match record_to_take(bytes.as_slice(), bytes.len()) {
        Some(n) => n,
        None => {
            proof {
                lemma_announced_len_bound(bytes@);
            }
            return None;
        },
    };
    let record = slice_subrange(bytes.as_slice(), 0, len);
    proof {
        lemma_announced_len_prefix(bytes@, len as nat);
    }
    consumer.advance(len, Ghost(record@));
    assert(newly_taken(*old(consumer), *consumer) =~= record@);
    match decode_record(record, resolve) {
        Ok(raw) => {
            assert(decodes_to(record@, raw, *resolve));
            assert(record@.len() == consumer.consumed() - old(consumer).consumed());
            Some(raw)
        },
        Err(_) => {
            assert(rejects(record@, *resolve));
            assert(record@.len() == consumer.consumed() - old(consumer).consumed());
            None
        },
    }
}

/// Whether `raw` is what decoding some whole record gives.
pub open spec fn well_decoded<F: Fn(u64, &[u8]) -> Option<String>>(raw: RawDecodedRecord, resolve: F) -> bool {
    exists|bytes: Seq<u8>| #[trigger] decodes_to(bytes, raw, resolve)
}

/// Whether `h` is whole records, one after another, that decode in order
/// to `raws`, followed, when `dropped`, by one whole record that fails to
/// decode.
pub open spec fn taken_as<F: Fn(u64, &[u8]) -> Option<String>>(
    h: Seq<u8>,
    raws: Seq<RawDecodedRecord>,
    resolve: F,
    dropped: bool,
) -> bool
    decreases raws.len(),
{
    if raws.len() == 0 {
        if dropped {
            rejects(h, resolve)
        } else {
            h.len() == 0
        }
    } else {
        match announced_len(h) {
            Some(n) => n <= h.len() && decodes_to(h.take(n as int), raws[0], resolve) && taken_as(
                h.skip(n as int),
                raws.drop_first(),
                resolve,
                dropped,
            ),
            None => false,
        }
    }
}

/// Byte sequences laid end to end.
pub open spec fn concat(ws: Seq<Seq<u8>>) -> Seq<u8>
    decreases ws.len(),
{
    if ws.len() == 0 {
        Seq::empty()
    } else {
        ws[0] + concat(ws.drop_first())
    }
}

/// A record taken after the records `h` stands for is the last of them.
proof fn lemma_taken_as_push<F: Fn(u64, &[u8]) -> Option<String>>(
    h: Seq<u8>,
    raws: Seq<RawDecodedRecord>,
    w: Seq<u8>,
    raw: RawDecodedRecord,
    resolve: F,
    dropped: bool,
)
    requires
        taken_as(h, raws, resolve, false),
        dropped ==> rejects(w, resolve),
        !dropped ==> decodes_to(w, raw, resolve),
    ensures
        dropped ==> taken_as(h + w, raws, resolve, true),
        !dropped ==> taken_as(h + w, raws.push(raw), resolve, false),
    decreases raws.len(),
{
    if raws.len() == 0 {
        assert(h + w =~= w);
        if !dropped {
            let n = w.len();
            assert(w.take(n as int) =~= w);
            assert(w.skip(n as int) =~= Seq::<u8>::empty());
            let rs = raws.push(raw);
            assert(rs.drop_first() =~= Seq::<RawDecodedRecord>::empty());
            assert(rs[0] == raw);
            assert(announced_len(w) == Some(n));
            assert(decodes_to(w.take(n as int), rs[0], resolve));
            assert(taken_as(w.skip(n as int), rs.drop_first(), resolve, false));
            assert(taken_as(w, rs, resolve, false));
            assert(taken_as(h + w, rs, resolve, false));
        }
    } else {
        let n = announced_len(h)->Some_0;
        lemma_announced_len_bound(h);
        lemma_announced_len_prefix(h + w, h.len());
        assert((h + w).subrange(0, h.len() as int) =~= h);
        lemma_announced_len_prefix(h, n);
        assert((h + w).take(n as int) =~= h.take(n as int));
        assert((h + w).skip(n as int) =~= h.skip(n as int) + w);
        lemma_taken_as_push(h.skip(n as int), raws.drop_first(), w, raw, resolve, dropped);
        if !dropped {
            let rs = raws.push(raw);
            assert(rs.drop_first() =~= raws.drop_first().push(raw));
            assert(rs[0] == raws[0]);
            assert(announced_len(h + w) == Some(n));
            assert(decodes_to((h + w).take(n as int), rs[0], resolve));
            assert(taken_as((h + w).skip(n as int), rs.drop_first(), resolve, false));
            assert(taken_as(h + w, rs, resolve, false));
        }
    }
}

/// The records a batch is taken as are the whole records its bytes are
/// made of, in the same order: when the taken bytes are whole records
/// `ws` laid end to end, the `k`-th record of the batch is what the `k`-th
/// of them decodes to.
pub proof fn lemma_batch_is_in_queue_order<F: Fn(u64, &[u8]) -> Option<String>>(
    ws: Seq<Seq<u8>>,
    raws: Seq<RawDecodedRecord>,
    resolve: F,
)
    requires
        ws.len() == raws.len(),
        forall|k: int| 0 <= k < ws.len() ==> whole_record(#[trigger] ws[k]),
        taken_as(concat(ws), raws, resolve, false),
    ensures
        forall|k: int| 0 <= k < ws.len() ==> decodes_to(#[trigger] ws[k], raws[k], resolve),
    decreases ws.len(),
{
    if ws.len() > 0 {
        let h = concat(ws);
        let w0 = ws[0];
        assert(whole_record(w0));
        lemma_announced_len_bound(w0);
        let n = w0.len();
        assert(h == w0 + concat(ws.drop_first()));
        lemma_announced_len_prefix(h, n);
        assert(h.subrange(0, n as int) =~= w0);
        assert(h.take(n as int) =~= w0);
        assert(h.skip(n as int) =~= concat(ws.drop_first()));
        assert forall|k: int| 0 <= k < ws.drop_first().len() implies whole_record(
            #[trigger] ws.drop_first()[k],
        ) by {
            assert(ws.drop_first()[k] == ws[k + 1]);
        }
        lemma_batch_is_in_queue_order(ws.drop_first(), raws.drop_first(), resolve);
        assert forall|k: int| 0 <= k < ws.len() implies decodes_to(#[trigger] ws[k], raws[k], resolve) by {
            if k > 0 {
                assert(ws[k] == ws.drop_first()[k - 1]);
                assert(raws[k] == raws.drop_first()[k - 1]);
            }
        }
    }
}

/// Takes up to [`MAX_BATCH_PER_CONSUMER`] records from `consumer`, in
/// queue order, stopping early once the queue holds no complete record or
/// a record fails to decode (that record is consumed and dropped).
pub fn drain_batch<F: Fn(u64, &[u8]) -> Option<String>>(consumer: &mut Consumer, resolve: &F) -> (r:
    Vec<RawDecodedRecord>)
    requires
        resolver_total(*resolve),
    ensures
        r@.len() <= MAX_BATCH_PER_CONSUMER,
        final(consumer).capacity() == old(consumer).capacity(),
        final(consumer).consumed() >= old(consumer).consumed() + r@.len() * RecordHeader::SIZE,
        forall|i: int| 0 <= i < r@.len() ==> well_decoded(#[trigger] r@[i], *resolve),
        r@.len() < MAX_BATCH_PER_CONSUMER ==> lacks_whole_record(final(consumer).ready())
            || final(consumer).consumed() >= old(consumer).consumed() + (r@.len() + 1)
            * RecordHeader::SIZE,
        final(consumer).taken() == old(consumer).taken() + newly_taken(*old(consumer), *final(consumer)),
        taken_as(newly_taken(*old(consumer), *final(consumer)), r@, *resolve, false) || taken_as(
            newly_taken(*old(consumer), *final(consumer)),
            r@,
            *resolve,
            true,
        ),
{
    let mut batch: Vec<RawDecodedRecord> = Vec::new();
    let mut i: usize = 0;
    while i < MAX_BATCH_PER_CONSUMER
        invariant_except_break
            taken_as(newly_taken(*old(consumer), *consumer), batch@, *resolve, false),
        invariant
            i <= MAX_BATCH_PER_CONSUMER,
            batch@.len() == i,
            resolver_total(*resolve),
            consumer.capacity() == old(consumer).capacity(),
            consumer.consumed() >= old(consumer).consumed() + i * RecordHeader::SIZE,
            forall|k: int| 0 <= k < batch@.len() ==> well_decoded(#[trigger] batch@[k], *resolve),
            consumer.taken() == old(consumer).taken() + newly_taken(*old(consumer), *consumer),
        ensures
            batch@.len() < MAX_BATCH_PER_CONSUMER ==> lacks_whole_record(consumer.ready())
                || consumer.consumed() >= old(consumer).consumed() + (batch@.len() + 1)
                * RecordHeader::SIZE,
            consumer.taken() == old(consumer).taken() + newly_taken(*old(consumer), *consumer),
            taken_as(newly_taken(*old(consumer), *consumer), batch@, *resolve, false) || taken_as(
                newly_taken(*old(consumer), *consumer),
                batch@,
                *resolve,
                true,
            ),
        decreases MAX_BATCH_PER_CONSUMER - i,
    {
        let ghost before = consumer.consumed();
        let ghost prior = *consumer;
        let ghost h = newly_taken(*old(consumer), prior);
        match try_read_one(consumer, resolve) {
            Some(raw) => {
                proof {
                    let w = newly_taken(prior, *consumer);
                    assert(newly_taken(*old(consumer), *consumer) =~= h + w);
                    lemma_taken_as_push(h, batch@, w, raw, *resolve, false);
                    let len = consumer.consumed() - before;
                    assert(decoded_from_consumed(len, raw, *resolve));
                    let bytes = choose|bytes: Seq<u8>|
                        bytes.len() == len && #[trigger] decodes_to(bytes, raw, *resolve);
                    assert(decodes_to(bytes, raw, *resolve));
                }
                batch.push(raw);
            },
            None => {
                proof {
                    let w = newly_taken(prior, *consumer);
                    assert(newly_taken(*old(consumer), *consumer) =~= h + w);
                    if consumer.consumed() != before {
                        lemma_taken_as_push(h, batch@, w, vstd::pervasive::arbitrary(), *resolve, true);
                    } else {
                        assert(w =~= Seq::<u8>::empty());
                        assert(h + w =~= h);
                    }
                }
                break;
            },
        }
        i = i + 1;
    }
    batch
}

} // verus!
