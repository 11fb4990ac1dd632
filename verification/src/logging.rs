//! Levels and filtering of the daemon's unified-log records.

use vstd::prelude::*;
use crate::text::{contains, push_str, str_contains};

verus! {

broadcast use vstd::string::group_string_axioms;

/// Log levels of the daemon.
#[derive(Debug, Clone, Copy, PartialEq, Eq, Structural)]
pub enum LogLevel {
    Error,
    Info,
}

/// Whether a logger configured at `configured` writes a record at `level`.
pub open spec fn should_log_spec(configured: LogLevel, level: LogLevel) -> bool {
    match (configured, level) {
        (LogLevel::Error, LogLevel::Error) => true,
        (LogLevel::Info, _) => true,
        _ => false,
    }
}

/// Why a logger cannot be made.
#[derive(Debug, Clone, Copy, PartialEq, Eq, Structural)]
pub enum LoggerError {
    /// The subsystem holds no `.`, so it is not in reverse DNS form.
    SubsystemNotReverseDns,
}

impl LoggerError {
    /// The message shown for the error.
    pub fn message(&self) -> (s: &'static str)
        ensures
            s@ == "Subsystem must be in reverse DNS format (e.g., 'com.example.app')"@,
    {
        "Subsystem must be in reverse DNS format (e.g., 'com.example.app')"
    }
}

/// The daemon's logger: the level below which records are dropped.
#[derive(Debug, Clone, Copy, PartialEq, Eq, Structural)]
pub struct DaemonLogger {
    pub level: LogLevel,
}

impl DaemonLogger {
    /// A logger for `subsystem`, which must be in reverse DNS form (hold a `.`).
    pub fn new(subsystem: &str, _category: &str, level: LogLevel) -> (r: Result<Self, LoggerError>)
        ensures
            contains(subsystem@, seq!['.']) ==> r == Ok::<Self, LoggerError>(DaemonLogger { level }),
            !contains(subsystem@, seq!['.']) ==> r == Err::<Self, LoggerError>(
                LoggerError::SubsystemNotReverseDns,
            ),
    {
        proof {
            reveal_strlit(".");
        }
        assert("."@ =~= seq!['.']);
        if !str_contains(subsystem, ".") {
            return Err(LoggerError::SubsystemNotReverseDns);
        }
        Ok(DaemonLogger { level })
    }

    /// Whether a record at `level` is written.
    pub fn should_log(&self, level: LogLevel) -> (b: bool)
        ensures
            b == should_log_spec(self.level, level),
    {
        match (self.level, level) {
            (LogLevel::Error, LogLevel::Error) => true,
            (LogLevel::Info, LogLevel::Error) | (LogLevel::Info, LogLevel::Info) => true,
            _ => false,
        }
    }

    /// The line sent to the unified log for a record at `level`, made of the
    /// message and its structured data; `None` when the record is dropped.
    pub fn structured_line(&self, level: LogLevel, message: &str, data: &str) -> (r: Option<String>)
        ensures
            !should_log_spec(self.level, level) ==> r is None,
            should_log_spec(self.level, level) ==> (r matches Some(line) && line@ == message@ + " | "@ + data@),
    {
        if !self.should_log(level) {
            return None;
        }
        let mut line = String::new();
        push_str(&mut line, message);
        push_str(&mut line, " | ");
        push_str(&mut line, data);
        assert(line@ =~= message@ + " | "@ + data@);
        Some(line)
    }
}

/// The message of the record logged for a detected process: its executable.
pub fn process_detection_message(executable_path: &str) -> (m: String)
    ensures
        m@ == "New process detected: "@ + executable_path@,
{
    let mut m = String::new();
    push_str(&mut m, "New process detected: ");
    push_str(&mut m, executable_path);
    m
}

/// Errors are written at every level.
pub proof fn lemma_errors_always_logged(configured: LogLevel)
    ensures
        should_log_spec(configured, LogLevel::Error),
{
}

} // verus!
