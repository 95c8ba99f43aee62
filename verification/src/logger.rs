//! Named logger: a fixed list of sinks plus an atomic level filter.
//!
//! `name` and `sinks` are fixed at construction; only the level changes at
//! runtime, and it is kept in an [`AtomicU8`] so that the logging hot path
//! can read it with a relaxed load.
//!
//! Two filters run in series: a record below the logger's level is never
//! emitted, and the backend then skips every sink whose own level is above
//! the record's. A sink's effective level is therefore the more severe of
//! the two.

use crate::level::LogLevel;
use core::sync::atomic::{AtomicU8, Ordering};
use vstd::prelude::*;

verus! {

/// Named logger holding its sinks (of handle type `S`) and a level filter.
pub struct Logger<S> {
    /// Registry name, fixed at construction.
    name: String,
    /// The sinks that receive each record, in declaration order.
    sinks: Vec<S>,
    /// Filter level, stored as the level's byte.
    level: AtomicU8,
    /// The level the logger was created with.
    initial_level: Ghost<LogLevel>,
}

impl<S> Logger<S> {
    /// The name the logger was created with.
    pub closed spec fn spec_name(&self) -> Seq<char> {
        self.name@
    }

    /// The sinks the logger was created with, in order.
    pub closed spec fn spec_sinks(&self) -> Seq<S> {
        self.sinks@
    }

    /// The level the logger was created with; [`Logger::set_level`] may
    /// have changed the level since.
    pub closed spec fn spec_initial_level(&self) -> LogLevel {
        self.initial_level@
    }

    /// Constructs a logger named `name` that sends records to `sinks` and
    /// drops records below `level`.
    pub fn new(name: String, sinks: Vec<S>, level: LogLevel) -> (r: Self)
        ensures
            r.spec_name() == name@,
            r.spec_sinks() == sinks@,
            r.spec_initial_level() == level,
    {
        Logger { name, sinks, level: AtomicU8::new(level.to_u8()), initial_level: Ghost(level) }
    }

    /// Returns the name this logger was created with.
    pub fn name(&self) -> (r: &str)
        ensures
            r@ == self.spec_name(),
    {
        self.name.as_str()
    }

    /// Returns the sinks, in declaration order; the list never changes.
    pub fn sinks(&self) -> (r: &[S])
        ensures
            r@ == self.spec_sinks(),
    {
        self.sinks.as_slice()
    }

    /// Returns the current filter level (relaxed load).
    ///
    /// Only [`Logger::new`] and [`Logger::set_level`] store the byte, and
    /// both store a level's own byte; a byte that names no level would read
    /// as [`LogLevel::Trace`].
    pub fn level(&self) -> (r: LogLevel) {
        let raw = self.level.load(Ordering::Relaxed);
        match LogLevel::try_from_u8(raw) {
            Ok(level) => level,
            Err(_) => LogLevel::Trace,
        }
    }

    /// Updates the filter level (relaxed store).
    pub fn set_level(&self, level: LogLevel) {
        self.level.store(level.to_u8(), Ordering::Relaxed);
    }
}

} // verus!
