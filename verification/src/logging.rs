//! Configuration for the log output. Opening the log file and installing the
//! logger are left to the surrounding program; the library only carries the
//! settings.

use vstd::prelude::*;

verus! {

/// Minimum severity to record, from nothing to everything.
#[derive(Clone, Copy, Debug, PartialEq, Eq, Structural)]
pub enum LogLevel {
    Off,
    Error,
    Warn,
    Info,
    Debug,
    Trace,
}

/// Settings for the logging system.
#[derive(Debug)]
pub struct LogConfig {
    /// Path to the log file.
    pub path: String,
    /// Minimum log level to record.
    pub level: LogLevel,
    /// Maximum log file size in bytes before rotation (0 = no limit).
    pub max_size: u64,
}

pub const DEFAULT_LOG_MAX_SIZE: u64 = 10485760;

impl LogConfig {
    /// Creates a config with the given path and the default level and size.
    pub fn new(path: String) -> (r: LogConfig)
        ensures
            r.path == path,
            r.level == LogLevel::Info,
            r.max_size == DEFAULT_LOG_MAX_SIZE,
    {
        LogConfig { path, level: LogLevel::Info, max_size: DEFAULT_LOG_MAX_SIZE }
    }

    /// Sets the log level.
    pub fn with_level(self, level: LogLevel) -> (r: LogConfig)
        ensures
            r.path == self.path,
            r.level == level,
            r.max_size == self.max_size,
    {
        LogConfig { level, ..self }
    }

    /// Sets the maximum log file size.
    pub fn with_max_size(self, max_size: u64) -> (r: LogConfig)
        ensures
            r.path == self.path,
            r.level == self.level,
            r.max_size == max_size,
    {
        LogConfig { max_size, ..self }
    }
}

impl Default for LogConfig {
    /// The default log target: `passmgr.log`, informational level, rotation
    /// at ten megabytes.
    fn default() -> (r: LogConfig)
        ensures
            r.path@ == "passmgr.log"@,
            r.level == LogLevel::Info,
            r.max_size == DEFAULT_LOG_MAX_SIZE,
    {
        let mut path = String::new();
        path.append("passmgr.log");
        LogConfig { path, level: LogLevel::Info, max_size: DEFAULT_LOG_MAX_SIZE }
    }
}

} // verus!
