//! The audit log that writes one line of JSON per event to standard output.

use vstd::prelude::*;

verus! {

/// A log on standard output.
pub struct StdoutJsonLog;

impl StdoutJsonLog {
    /// The log on standard output.
    pub fn new() -> (log: Self)
        ensures
            log == StdoutJsonLog,
    {
        StdoutJsonLog
    }
}

impl Default for StdoutJsonLog {
    fn default() -> (log: Self)
        ensures
            log == StdoutJsonLog,
    {
        StdoutJsonLog::new()
    }
}

} // verus!
