//! Log severity levels.

use vstd::prelude::*;

verus! {

/// Severity level for a log record.
///
/// Levels are ordered from least to most severe:
/// `Trace` < `Debug` < `Info` < `Warning` < `Error`.
///
/// On the wire a level is the byte 10, 20, 30, 40 or 50; the gaps leave room
/// for levels added later without reordering.
#[derive(Debug, Clone, Copy, PartialEq, Eq, Structural, PartialOrd, Ord, Hash)]
pub enum LogLevel {
    /// Very fine-grained diagnostic information.
    Trace,
    /// Diagnostic information useful during development.
    Debug,
    /// General informational messages.
    Info,
    /// Potentially harmful situations.
    Warning,
    /// Error events that might still allow the application to continue.
    Error,
}

impl LogLevel {
    /// The byte that stands for this level on the wire.
    pub open spec fn spec_byte(self) -> u8 {
        match self {
            LogLevel::Trace => 10,
            LogLevel::Debug => 20,
            LogLevel::Info => 30,
            LogLevel::Warning => 40,
            LogLevel::Error => 50,
        }
    }

    /// Returns the byte that stands for this level.
    #[verifier::when_used_as_spec(spec_byte)]
    pub fn to_u8(self) -> (b: u8)
        ensures
            b == self.spec_byte(),
    {
        match self {
            LogLevel::Trace => 10,
            LogLevel::Debug => 20,
            LogLevel::Info => 30,
            LogLevel::Warning => 40,
            LogLevel::Error => 50,
        }
    }

    /// The level whose byte is `b`, if any.
    pub open spec fn spec_from_byte(b: u8) -> Option<LogLevel> {
        if b == 10 {
            Some(LogLevel::Trace)
        } else if b == 20 {
            Some(LogLevel::Debug)
        } else if b == 30 {
            Some(LogLevel::Info)
        } else if b == 40 {
            Some(LogLevel::Warning)
        } else if b == 50 {
            Some(LogLevel::Error)
        } else {
            None
        }
    }

    /// Converts a wire byte back to a level; the byte itself is handed back
    /// when it names no level.
    pub fn try_from_u8(value: u8) -> (r: Result<LogLevel, u8>)
        ensures
            r matches Ok(l) ==> Self::spec_from_byte(value) == Some(l),
            r matches Err(e) ==> Self::spec_from_byte(value) is None && e == value,
    {
        match value {
            10 => Ok(LogLevel::Trace),
            20 => Ok(LogLevel::Debug),
            30 => Ok(LogLevel::Info),
            40 => Ok(LogLevel::Warning),
            50 => Ok(LogLevel::Error),
            other => Err(other),
        }
    }

    /// Whether `self` is at least as severe as `other`.
    pub open spec fn spec_at_least(self, other: LogLevel) -> bool {
        self.spec_byte() >= other.spec_byte()
    }

    /// Returns whether `self` is at least as severe as `other`.
    pub fn at_least(self, other: LogLevel) -> (r: bool)
        ensures
            r == self.spec_at_least(other),
    {
        self.to_u8() >= other.to_u8()
    }

    /// The upper-case label of this level.
    pub open spec fn spec_label(self) -> Seq<char> {
        match self {
            LogLevel::Trace => seq!['T', 'R', 'A', 'C', 'E'],
            LogLevel::Debug => seq!['D', 'E', 'B', 'U', 'G'],
            LogLevel::Info => seq!['I', 'N', 'F', 'O'],
            LogLevel::Warning => seq!['W', 'A', 'R', 'N', 'I', 'N', 'G'],
            LogLevel::Error => seq!['E', 'R', 'R', 'O', 'R'],
        }
    }

    /// Returns the upper-case label of this level (`"INFO"`, ...), the text
    /// a level is displayed as.
    pub fn label(self) -> (r: &'static str)
        ensures
            r@ == self.spec_label(),
    {
        match self {
            LogLevel::Trace => {
                proof {
                    reveal_strlit("TRACE");
                }
                "TRACE"
            },
            LogLevel::Debug => {
                proof {
                    reveal_strlit("DEBUG");
                }
                "DEBUG"
            },
            LogLevel::Info => {
                proof {
                    reveal_strlit("INFO");
                }
                "INFO"
            },
            LogLevel::Warning => {
                proof {
                    reveal_strlit("WARNING");
                }
                "WARNING"
            },
            LogLevel::Error => {
                proof {
                    reveal_strlit("ERROR");
                }
                "ERROR"
            },
        }
    }
}

impl TryFrom<u8> for LogLevel {
    type Error = u8;

    /// Converts a wire byte back to a level; the byte itself is the error
    /// when it names no level.
    fn try_from(value: u8) -> (r: Result<LogLevel, u8>) {
        LogLevel::try_from_u8(value)
    }
}

impl vstd::std_specs::convert::TryFromSpecImpl<u8> for LogLevel {
    open spec fn obeys_try_from_spec() -> bool {
        true
    }

    open spec fn try_from_spec(value: u8) -> Result<LogLevel, u8> {
        match LogLevel::spec_from_byte(value) {
            Some(l) => Ok(l),
            None => Err(value),
        }
    }
}

/// Every level survives the trip to its byte and back.
pub proof fn lemma_level_byte_roundtrip(l: LogLevel)
    ensures
        LogLevel::spec_from_byte(l.spec_byte()) == Some(l),
{
}

} // verus!
