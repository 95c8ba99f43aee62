//! Backend configuration and the named registries of sinks and loggers.
//!
//! A registry maps names to values, first come first served: a second
//! registration under a name that is taken is refused and answered with the
//! value registered first. Registered values stay for the life of the
//! registry.

use crate::level::LogLevel;
use crate::logger::Logger;
use crate::text::{dec, push_decimal, push_str};
use core::time::Duration;
use std::sync::Arc;
use vstd::prelude::*;

verus! {

broadcast use vstd::string::group_string_axioms;

/// Error returned when a logger is already registered under the given name.
pub struct LoggerAlreadyRegistered<S> {
    /// The logger registered under the name before this call.
    pub existing: Arc<Logger<S>>,
}

/// Error returned when a sink is already registered under the given name.
pub struct SinkAlreadyRegistered<S> {
    /// The sink registered under the name before this call.
    pub existing: S,
}

/// The duration of `micros` microseconds.
pub uninterp spec fn duration_of_micros(micros: u64) -> Duration;

/// Returns the duration of `micros` microseconds.
///
/// Calls `Duration::from_micros`; the result is named by
/// [`duration_of_micros`], nothing more is claimed of it.
#[verifier::external_body]
fn micros(us: u64) -> (d: Duration)
    ensures
        d == duration_of_micros(us),
{
    Duration::from_micros(us)
}

/// `Duration` is `Copy`: its clone is the same duration.
pub assume_specification[ <Duration as Clone>::clone ](d: &Duration) -> (r: Duration)
    ensures
        r == *d,
;

/// Configuration of the backend worker.
#[derive(Debug, Clone)]
pub struct BackendOptions {
    /// Name of the worker thread.
    pub thread_name: String,
    /// Per-thread queue size in bytes, rounded up to a power of two.
    pub queue_capacity: usize,
    /// Rounds of yielding the worker makes, when it finds no work, before
    /// it sleeps for [`BackendOptions::idle_sleep`].
    pub idle_yield_rounds: u32,
    /// How long the idle worker sleeps once the yield rounds are used up.
    pub idle_sleep: Duration,
    /// Whether shutting down drains every queue before the worker stops.
    pub wait_for_queues_to_empty_before_exit: bool,
}

impl Default for BackendOptions {
    /// A worker named `insomnilog-backend` with 128 KiB queues, 32 yield
    /// rounds, 100 µs idle sleeps, draining on shutdown.
    fn default() -> (r: Self)
        ensures
            r.thread_name@ == seq![
                'i', 'n', 's', 'o', 'm', 'n', 'i', 'l', 'o', 'g', '-', 'b', 'a', 'c', 'k', 'e', 'n', 'd',
            ],
            r.queue_capacity == 128 * 1024,
            r.idle_yield_rounds == 32,
            r.idle_sleep == duration_of_micros(100),
            r.wait_for_queues_to_empty_before_exit,
    {
        proof {
            reveal_strlit("insomnilog-backend");
        }
        BackendOptions {
            thread_name: "insomnilog-backend".to_owned(),
            queue_capacity: 128 * 1024,
            idle_yield_rounds: 32,
            idle_sleep: micros(100),
            wait_for_queues_to_empty_before_exit: true,
        }
    }
}

/// The value registered under `name` in `entries`, if any; `entries` lists
/// the registrations in order, and a later one wins (no name is ever
/// registered twice).
pub open spec fn lookup<V>(entries: Seq<(Seq<char>, V)>, name: Seq<char>) -> Option<V>
    decreases entries.len(),
{
    if entries.len() == 0 {
        None
    } else if entries.last().0 == name {
        Some(entries.last().1)
    } else {
        lookup(entries.drop_last(), name)
    }
}

/// Values registered under distinct names.
pub struct Registry<V> {
    /// The registrations, in order.
    entries: Vec<(String, V)>,
}

impl<V> View for Registry<V> {
    type V = Seq<(Seq<char>, V)>;

    /// The registrations, in order: each name with its value.
    closed spec fn view(&self) -> Seq<(Seq<char>, V)> {
        self.entries@.map_values(|e: (String, V)| (e.0@, e.1))
    }
}

impl<V> Registry<V> {
    /// Creates an empty registry.
    pub fn new() -> (r: Self)
        ensures
            r@ == Seq::<(Seq<char>, V)>::empty(),
    {
        let r = Registry { entries: Vec::new() };
        assert(r@ =~= Seq::<(Seq<char>, V)>::empty());
        r
    }

    /// Returns the number of registrations.
    pub fn len(&self) -> (r: usize)
        ensures
            r == self@.len(),
    {
        self.entries.len()
    }

    /// Returns the value registered under `name`, if any.
    pub fn get(&self, name: &str) -> (r: Option<&V>)
        ensures
            match lookup(self@, name@) {
                Some(v) => r matches Some(x) && *x == v,
                None => r is None,
            },
    {
        let key = name.to_owned();
        let mut i = self.entries.len();
        assert(self@.subrange(0, i as int) =~= self@);
        while i > 0
            invariant
                i <= self.entries@.len(),
                self@.len() == self.entries@.len(),
                key@ == name@,
                lookup(self@, name@) == lookup(self@.subrange(0, i as int), name@),
            decreases i,
        {
            let ghost prefix = self@.subrange(0, i as int);
            assert(prefix.drop_last() =~= self@.subrange(0, i - 1));
            if self.entries[i - 1].0 == key {
                return Some(&self.entries[i - 1].1);
            }
            i = i - 1;
        }
        None
    }

    /// Registers `value` under `name`; when the name is taken, nothing
    /// changes and `value` is handed back.
    pub fn register(&mut self, name: &str, value: V) -> (r: Result<(), V>)
        ensures
            match lookup(old(self)@, name@) {
                Some(_) => r == Err::<(), V>(value) && final(self)@ == old(self)@,
                None => r is Ok && final(self)@ == old(self)@.push((name@, value)),
            },
    {
        if self.get(name).is_some() {
            return Err(value);
        }
        let ghost before = self@;
        self.entries.push((name.to_owned(), value));
        assert(self@ =~= before.push((name@, value)));
        Ok(())
    }
}

/// A registration is found again under its name, and leaves what the other
/// names find unchanged.
pub proof fn lemma_lookup_after_register<V>(entries: Seq<(Seq<char>, V)>, name: Seq<char>, value: V)
    ensures
        lookup(entries.push((name, value)), name) == Some(value),
        forall|other: Seq<char>|
            other != name ==> lookup(entries.push((name, value)), other) == lookup(entries, other),
{
    assert(entries.push((name, value)).drop_last() =~= entries);
}

/// The registrations after the attempts `attempts` (each a name and a
/// value) are made one after another on `entries`, as
/// [`Registry::register`] makes each, and which of them were accepted.
pub open spec fn register_all<V>(entries: Seq<(Seq<char>, V)>, attempts: Seq<(Seq<char>, V)>) -> (
    Seq<(Seq<char>, V)>,
    Seq<bool>,
)
    decreases attempts.len(),
{
    if attempts.len() == 0 {
        (entries, Seq::empty())
    } else {
        let (e, oks) = register_all(entries, attempts.drop_last());
        let a = attempts.last();
        if lookup(e, a.0) is Some {
            (e, oks.push(false))
        } else {
            (e.push(a), oks.push(true))
        }
    }
}

/// Of any attempts to register values, in any order, under a name that is
/// free at first, exactly the first under that name is accepted, every
/// later one is refused, and the name then finds the first one's value. A
/// name that is taken at first refuses every attempt and keeps its value.
pub proof fn lemma_first_registration_wins<V>(
    entries: Seq<(Seq<char>, V)>,
    attempts: Seq<(Seq<char>, V)>,
    name: Seq<char>,
)
    ensures
        register_all(entries, attempts).1.len() == attempts.len(),
        forall|i: int|
            0 <= i < attempts.len() && (#[trigger] attempts[i]).0 == name ==> (register_all(
                entries,
                attempts,
            ).1[i] <==> (lookup(entries, name) is None && forall|j: int|
                0 <= j < i ==> attempts[j].0 != name)),
        forall|i: int|
            0 <= i < attempts.len() && (#[trigger] attempts[i]).0 == name && register_all(
                entries,
                attempts,
            ).1[i] ==> lookup(register_all(entries, attempts).0, name) == Some(attempts[i].1),
        lookup(register_all(entries, attempts).0, name) is None <==> (lookup(entries, name) is None
            && forall|i: int| 0 <= i < attempts.len() ==> (#[trigger] attempts[i]).0 != name),
        lookup(entries, name) is Some ==> lookup(register_all(entries, attempts).0, name) == lookup(
            entries,
            name,
        ),
    decreases attempts.len(),
{
    if attempts.len() > 0 {
        let prev = attempts.drop_last();
        lemma_first_registration_wins(entries, prev, name);
        let (e, oks) = register_all(entries, prev);
        let a = attempts.last();
        let n = prev.len() as int;
        lemma_lookup_after_register(e, a.0, a.1);
        assert forall|i: int| 0 <= i < n implies attempts[i] == prev[i] by {}
        assert(attempts[n] == a);
    }
}

/// Registers `sink` under `name`.
///
/// When a sink is already registered under `name`, nothing changes and the
/// error carries a clone of the existing sink.
pub fn register_sink<S: Clone>(sinks: &mut Registry<S>, name: &str, sink: S) -> (r: Result<
    (),
    SinkAlreadyRegistered<S>,
>)
    ensures
        match lookup(old(sinks)@, name@) {
            Some(existing) => r matches Err(e) && cloned(existing, e.existing)
                && final(sinks)@ == old(sinks)@,
            None => r is Ok && final(sinks)@ == old(sinks)@.push((name@, sink)),
        },
{
    if let Some(existing) = sinks.get(name) {
        return Err(SinkAlreadyRegistered { existing: existing.clone() });
    }
    match sinks.register(name, sink) {
        Ok(()) => Ok(()),
        Err(_) => Ok(()),
    }
}

/// Returns a clone of the sink registered under `name`, if any.
pub fn get_sink<S: Clone>(sinks: &Registry<S>, name: &str) -> (r: Option<S>)
    ensures
        match lookup(sinks@, name@) {
            Some(s) => r matches Some(x) && cloned(s, x),
            None => r is None,
        },
{
    match sinks.get(name) {
        Some(s) => Some(s.clone()),
        None => None,
    }
}

/// Creates a logger named `name` with `sinks` and `level`, and registers
/// it.
///
/// When a logger is already registered under `name`, nothing changes and
/// the error carries the existing logger.
pub fn create_logger<S>(
    loggers: &mut Registry<Arc<Logger<S>>>,
    name: &str,
    sinks: Vec<S>,
    level: LogLevel,
) -> (r: Result<Arc<Logger<S>>, LoggerAlreadyRegistered<S>>)
    ensures
        match lookup(old(loggers)@, name@) {
            Some(existing) => r matches Err(e) && e.existing == existing
                && final(loggers)@ == old(loggers)@,
            None => r matches Ok(l) && l.spec_name() == name@ && l.spec_sinks() == sinks@
                && l.spec_initial_level() == level && final(loggers)@ == old(loggers)@.push(
                (name@, l),
            ),
        },
{
    if let Some(existing) = loggers.get(name) {
        return Err(LoggerAlreadyRegistered { existing: existing.clone() });
    }
    let logger = Arc::new(Logger::new(name.to_owned(), sinks, level));
    let registered = logger.clone();
    match loggers.register(name, registered) {
        Ok(()) => Ok(logger),
        Err(_) => Ok(logger),
    }
}

/// Returns the logger registered under `name`, if any.
pub fn get_logger<S>(loggers: &Registry<Arc<Logger<S>>>, name: &str) -> (r: Option<Arc<Logger<S>>>)
    ensures
        match lookup(loggers@, name@) {
            Some(l) => r == Some(l),
            None => r is None,
        },
{
    match loggers.get(name) {
        Some(l) => Some(l.clone()),
        None => None,
    }
}

/// The report line on failed sink calls.
pub open spec fn errors_line(write_errors: u64, flush_errors: u64, panic_count: u64) -> Seq<char> {
    "insomnilog: sink errors at shutdown — write_record: "@ + dec(write_errors as nat)
        + ", flush: "@ + dec(flush_errors as nat) + ", panics: "@ + dec(panic_count as nat)
}

/// The report line on dropped records.
pub open spec fn dropped_line(dropped_records: u64) -> Seq<char> {
    "insomnilog: "@ + dec(dropped_records as nat)
        + " log record(s) dropped at shutdown (queue full or oversized)"@
}

/// The lines reported at shutdown: one on failed sink calls, when there
/// was any, and one on dropped records, when there was any.
pub open spec fn spec_shutdown_report(
    write_errors: u64,
    flush_errors: u64,
    panic_count: u64,
    dropped_records: u64,
) -> Seq<Seq<char>> {
    (if write_errors > 0 || flush_errors > 0 || panic_count > 0 {
        seq![errors_line(write_errors, flush_errors, panic_count)]
    } else {
        Seq::empty()
    }) + (if dropped_records > 0 {
        seq![dropped_line(dropped_records)]
    } else {
        Seq::empty()
    })
}

/// Returns the lines to report at shutdown, given the backend's counters.
pub fn shutdown_report(write_errors: u64, flush_errors: u64, panic_count: u64, dropped_records: u64) -> (r:
    Vec<String>)
    ensures
        r@.map_values(|l: String| l@) == spec_shutdown_report(
            write_errors,
            flush_errors,
            panic_count,
            dropped_records,
        ),
{
    let mut lines: Vec<String> = Vec::new();
    if write_errors > 0 || flush_errors > 0 || panic_count > 0 {
        let mut line = String::new();
        push_str(&mut line, "insomnilog: sink errors at shutdown — write_record: ");
        push_decimal(&mut line, write_errors as u128);
        push_str(&mut line, ", flush: ");
        push_decimal(&mut line, flush_errors as u128);
        push_str(&mut line, ", panics: ");
        push_decimal(&mut line, panic_count as u128);
        assert(line@ =~= errors_line(write_errors, flush_errors, panic_count));
        lines.push(line);
    }
    if dropped_records > 0 {
        let mut line = String::new();
        push_str(&mut line, "insomnilog: ");
        push_decimal(&mut line, dropped_records as u128);
        push_str(&mut line, " log record(s) dropped at shutdown (queue full or oversized)");
        assert(line@ =~= dropped_line(dropped_records));
        lines.push(line);
    }
    assert(lines@.map_values(|l: String| l@) =~= spec_shutdown_report(
        write_errors,
        flush_errors,
        panic_count,
        dropped_records,
    ));
    lines
}

} // verus!
