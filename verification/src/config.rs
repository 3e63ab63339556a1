//! Run configuration shared with the command line: the default observation
//! target and the mapping from verbosity flags to a log level.

use vstd::prelude::*;

verus! {

/// How many matching transactions each collector gathers by default.
pub const DEFAULT_TARGET_COUNT: usize = 50;

/// The minimum severity of log lines a run emits; `Off` silences all of them.
#[derive(Clone, Copy, PartialEq, Eq, Structural, Debug)]
pub enum LogLevel {
    Off,
    Error,
    Warn,
    Info,
    Debug,
    Trace,
}

/// The log level a repeated-verbosity count selects.
pub open spec fn level_of(verbosity: u8, quiet: bool) -> LogLevel {
    if quiet {
        LogLevel::Off
    } else if verbosity == 1 {
        LogLevel::Error
    } else if verbosity == 2 {
        LogLevel::Warn
    } else if verbosity == 3 {
        LogLevel::Info
    } else if verbosity == 4 {
        LogLevel::Debug
    } else {
        LogLevel::Trace
    }
}

/// Maps the command line's verbosity count and quiet flag to a log level: one
/// `-v` shows errors only, each further `-v` widens by one step, and the
/// quiet flag silences everything.
pub fn log_level(verbosity: u8, quiet: bool) -> (l: LogLevel)
    requires
        quiet || verbosity >= 1,
    ensures
        l == level_of(verbosity, quiet),
{
    if quiet {
        LogLevel::Off
    } else {
        match verbosity - 1 {
            0 => LogLevel::Error,
            1 => LogLevel::Warn,
            2 => LogLevel::Info,
            3 => LogLevel::Debug,
            _ => LogLevel::Trace,
        }
    }
}

} // verus!
