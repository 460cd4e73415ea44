//! The configuration surface the core consumes: an optional explicit
//! starting index, a verbosity count, a worker count, the API token and the
//! destination path, plus the rule that turns the stored checkpoint and the
//! explicit override into the first index to allocate.

use vstd::prelude::*;

verus! {

/// The run's configuration, as plain values.
pub struct Opts {
    /// Explicit starting work index; overrides the stored checkpoint.
    pub start: Option<u64>,
    /// How many verbosity flags were given.
    pub verbose: u32,
    /// How many workers race over the coordinator.
    pub workers: u32,
    /// Bearer token for the remote API.
    pub token: String,
    /// Destination directory for the mirrored content.
    pub path: String,
}

/// The log level chosen from the verbosity count.
#[derive(Clone, Copy, PartialEq, Eq, Structural, Debug)]
pub enum LogLevel {
    Warn,
    Info,
    Debug,
    Trace,
}

/// Maps the number of verbosity flags to the log level: none means
/// warnings only, and each further flag opens one more level.
pub fn log_level(verbose: u32) -> (l: LogLevel)
    ensures
        (l == LogLevel::Warn) <==> verbose == 0,
        (l == LogLevel::Info) <==> verbose == 1,
        (l == LogLevel::Debug) <==> verbose == 2,
        (l == LogLevel::Trace) <==> verbose >= 3,
{
    if verbose == 0 {
        LogLevel::Warn
    } else if verbose == 1 {
        LogLevel::Info
    } else if verbose == 2 {
        LogLevel::Debug
    } else {
        LogLevel::Trace
    }
}

/// The first index a run allocates: the explicit override when given,
/// otherwise the stored checkpoint when one was read, otherwise 1.
/// Resuming *from* the checkpoint itself (not one past it) re-runs its
/// unit of work, which the destination's existence check turns into a
/// no-op.
pub fn resolve_start(explicit: Option<u64>, stored: Option<u64>) -> (s: u64)
    ensures
        explicit is Some ==> s == explicit->0,
        explicit is None && stored is Some ==> s == stored->0,
        explicit is None && stored is None ==> s == 1,
{
    match explicit {
        Some(v) => v,
        None => match stored {
            Some(v) => v,
            None => 1,
        },
    }
}

} // verus!
