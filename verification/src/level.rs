//! Severities of the logging facility and the four levels that recipients see.

use vstd::prelude::*;

verus! {

/// Severity of a record as the native logging facility reports it.
#[derive(Clone, Copy, Debug, PartialEq, Eq, Structural)]
pub enum Severity {
    Error,
    Warn,
    Info,
    Debug,
    Trace,
}

/// Level of an event as it is delivered to a recipient.
#[derive(Clone, Copy, Debug, PartialEq, Eq, Structural)]
pub enum LogLevel {
    Debug,
    Info,
    Warning,
    Error,
}

impl LogLevel {
    /// The level that stands for a severity: trace detail collapses into `Debug`.
    pub open spec fn of(severity: Severity) -> LogLevel {
        match severity {
            Severity::Error => LogLevel::Error,
            Severity::Warn => LogLevel::Warning,
            Severity::Info => LogLevel::Info,
            Severity::Debug => LogLevel::Debug,
            Severity::Trace => LogLevel::Debug,
        }
    }

    /// The symbolic tag under which the level travels to a recipient.
    pub open spec fn tag_chars(self) -> Seq<char> {
        match self {
            LogLevel::Debug => "debug"@,
            LogLevel::Info => "info"@,
            LogLevel::Warning => "warning"@,
            LogLevel::Error => "error"@,
        }
    }

    /// Maps a severity of the logging facility to a delivered level.
    pub fn from_severity(severity: Severity) -> (level: LogLevel)
        ensures
            level == LogLevel::of(severity),
    {
        match severity {
            Severity::Error => LogLevel::Error,
            Severity::Warn => LogLevel::Warning,
            Severity::Info => LogLevel::Info,
            Severity::Debug => LogLevel::Debug,
            Severity::Trace => LogLevel::Debug,
        }
    }

    /// The tag of the level: `debug`, `info`, `warning` or `error`.
    pub fn tag(&self) -> (t: &'static str)
        ensures
            t@ == self.tag_chars(),
    {
        match self {
            LogLevel::Debug => "debug",
            LogLevel::Info => "info",
            LogLevel::Warning => "warning",
            LogLevel::Error => "error",
        }
    }
}

/// Distinct levels travel under distinct tags.
pub proof fn lemma_tags_distinct(a: LogLevel, b: LogLevel)
    ensures
        a.tag_chars() == b.tag_chars() <==> a == b,
{
    reveal_strlit("debug");
    reveal_strlit("info");
    reveal_strlit("warning");
    reveal_strlit("error");
    if a != b {
        assert(a.tag_chars().len() != b.tag_chars().len() || a.tag_chars()[0] != b.tag_chars()[0]);
    }
}

} // verus!
