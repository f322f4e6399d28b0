//! A logging threshold, threaded explicitly into the components that log
//! rather than held as process-wide mutable state. What a logger writes and
//! where it writes it stay outside the verified core; the core only decides
//! which messages pass the threshold.

use vstd::prelude::*;

verus! {

/// Logs everything.
pub const ALL: usize = 0;

/// The level of debug messages.
pub const DEBUG: usize = 1;

/// The level of informational messages.
pub const INFO: usize = 2;

/// The level of warnings.
pub const WARN: usize = 3;

/// The level of errors.
pub const ERROR: usize = 4;

/// A logging threshold: messages at or above the level pass.
pub struct Logger {
    /// The current threshold.
    level: usize,
}

impl Logger {
    /// The current threshold.
    pub closed spec fn level_spec(&self) -> usize {
        self.level
    }

    /// Creates a logger with the given threshold.
    pub fn new(level: usize) -> (r: Self)
        ensures
            r.level_spec() == level,
    {
        Self { level }
    }

    /// Whether a message at `msg_level` passes the threshold.
    pub fn enabled(&self, msg_level: usize) -> (r: bool)
        ensures
            r == (msg_level >= self.level_spec()),
    {
        msg_level >= self.level
    }
}

impl Default for Logger {
    /// The default threshold admits warnings and errors.
    fn default() -> (r: Self)
        ensures
            r.level_spec() == WARN,
    {
        Self { level: 3 }
    }
}

/// The logger's threshold.
pub fn level(logger: &Logger) -> (r: usize)
    ensures
        r == logger.level_spec(),
{
    logger.level
}

/// Sets the logger's threshold.
pub fn set_level(logger: &mut Logger, level: usize)
    ensures
        final(logger).level_spec() == level,
{
    *logger = Logger::new(level);
}

} // verus!
