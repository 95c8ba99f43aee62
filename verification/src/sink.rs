//! Sinks without output of their own.

use crate::level::LogLevel;
use vstd::prelude::*;

verus! {

/// A sink that silently discards every record.
///
/// Useful in tests and benchmarks, and as a placeholder while wiring up the
/// backend.
pub struct NullSink {
    /// Filter level.
    level: LogLevel,
}

impl NullSink {
    /// The level the sink was created with.
    pub closed spec fn spec_level(&self) -> LogLevel {
        self.level
    }

    /// Creates a sink that accepts records at or above `level`.
    pub fn new(level: LogLevel) -> (r: Self)
        ensures
            r.spec_level() == level,
    {
        NullSink { level }
    }

    /// Returns the sink's filter level, fixed at construction.
    pub fn level(&self) -> (r: LogLevel)
        ensures
            r == self.spec_level(),
    {
        self.level
    }
}

/// Whether a sink whose level is `sink_level` takes a record of
/// `record_level`: it takes exactly the records at least as severe as its
/// own level.
pub open spec fn spec_sink_accepts(sink_level: LogLevel, record_level: LogLevel) -> bool {
    record_level.spec_at_least(sink_level)
}

/// Returns whether a sink at `sink_level` takes a record of `record_level`.
pub fn sink_accepts(sink_level: LogLevel, record_level: LogLevel) -> (r: bool)
    ensures
        r == spec_sink_accepts(sink_level, record_level),
{
    record_level.at_least(sink_level)
}

/// The more severe of two levels.
pub open spec fn more_severe(a: LogLevel, b: LogLevel) -> LogLevel {
    if a.spec_at_least(b) {
        a
    } else {
        b
    }
}

/// A record passes its logger's filter and then a sink's filter exactly
/// when it is at least as severe as the more severe of the two levels: a
/// sink's effective level is the maximum of the logger's and its own.
pub proof fn lemma_effective_sink_level(logger_level: LogLevel, sink_level: LogLevel, record_level: LogLevel)
    ensures
        (record_level.spec_at_least(logger_level) && spec_sink_accepts(sink_level, record_level))
            <==> record_level.spec_at_least(more_severe(logger_level, sink_level)),
{
}

} // verus!
