//! Static per-callsite metadata for log records.

use crate::level::LogLevel;
use vstd::prelude::*;

verus! {

/// Static metadata associated with a single log callsite.
///
/// Created once per logging callsite as a `static` item; a record refers to
/// it by address.
pub struct LogMetadata {
    /// Severity level of this callsite.
    pub level: LogLevel,
    /// Format string with `{}` placeholders (e.g. `"user {} logged in"`).
    pub fmt_str: &'static str,
    /// Source file where the log call stands.
    pub file: &'static str,
    /// Line number in the source file.
    pub line: u32,
    /// Module path of the callsite.
    pub module: &'static str,
    /// Number of arguments expected by the format string.
    pub arg_count: u8,
}

} // verus!
