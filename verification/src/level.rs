//! How strictly a failed runtime check is reported.

use vstd::prelude::*;

verus! {

/// Severity with which a failed check is reported.
#[derive(Debug, Clone, Copy, PartialEq, Eq, Structural)]
pub enum Level {
    Ignore,
    Warning,
    Panic,
}

/// What the caller has to do about a failed check: log a warning or abort
/// with the message.
#[derive(Debug)]
pub enum Report {
    Warning(String),
    Panic(String),
}

impl Default for Level {
    fn default() -> (r: Self)
        ensures
            r == Level::Ignore,
    {
        Level::Ignore
    }
}

/// `r` is the report that `level` calls for, with a message produced by `message`.
pub open spec fn reported<M: Fn() -> String>(level: Level, message: M, r: Option<Report>) -> bool {
    match level {
        Level::Ignore => r is None,
        Level::Warning => r matches Some(Report::Warning(m)) && call_ensures(message, (), m),
        Level::Panic => r matches Some(Report::Panic(m)) && call_ensures(message, (), m),
    }
}

impl Level {
    /// The report of an error at this level; the message is only built
    /// when the level asks for a report.
    pub fn error<M: Fn() -> String>(&self, message: M) -> (r: Option<Report>)
        requires
            *self != Level::Ignore ==> call_requires(message, ()),
        ensures
            reported(*self, message, r),
    {
        match self {
            Level::Warning => Some(Report::Warning(message())),
            Level::Panic => Some(Report::Panic(message())),
            Level::Ignore => None,
        }
    }

    /// No report when `condition` holds; otherwise the report of [`Level::error`].
    pub fn check<M: Fn() -> String>(&self, condition: bool, message: M) -> (r: Option<Report>)
        requires
            !condition && *self != Level::Ignore ==> call_requires(message, ()),
        ensures
            condition ==> r is None,
            !condition ==> reported(*self, message, r),
    {
        if !condition {
            self.error(message)
        } else {
            None
        }
    }
}

} // verus!
