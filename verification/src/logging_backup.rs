//! The four-level variant of the daemon's log levels.

use vstd::prelude::*;

verus! {

broadcast use vstd::string::group_string_axioms;

/// Log levels of the daemon, from the most to the least severe.
#[derive(Debug, Clone, Copy, PartialEq, Eq, Structural)]
pub enum LogLevel {
    Error,
    Warn,
    Info,
    Debug,
}

/// The lower-case form of `s` as `str::to_lowercase` gives it (Unicode case mapping).
pub uninterp spec fn lowercase(s: Seq<char>) -> Seq<char>;

/// `str::to_lowercase`.
#[verifier::external_body]
fn to_lowercase(s: &str) -> (r: String)
    ensures
        r@ == lowercase(s@),
{
    s.to_lowercase()
}

/// Severity rank: `Error` is the most severe.
pub open spec fn rank(l: LogLevel) -> int {
    match l {
        LogLevel::Error => 0,
        LogLevel::Warn => 1,
        LogLevel::Info => 2,
        LogLevel::Debug => 3,
    }
}

/// Whether a logger configured at `configured` writes a record at `level`.
pub open spec fn should_log_spec(configured: LogLevel, level: LogLevel) -> bool {
    match (configured, level) {
        (LogLevel::Error, LogLevel::Error) => true,
        (LogLevel::Warn, LogLevel::Error) | (LogLevel::Warn, LogLevel::Warn) => true,
        (LogLevel::Info, LogLevel::Error) | (LogLevel::Info, LogLevel::Warn) | (
            LogLevel::Info,
            LogLevel::Info,
        ) => true,
        (LogLevel::Debug, _) => true,
        _ => false,
    }
}

/// The name of a level in the unified log.
pub open spec fn as_str_spec(l: LogLevel) -> Seq<char> {
    match l {
        LogLevel::Error => "error"@,
        LogLevel::Warn => "default"@,
        LogLevel::Info => "info"@,
        LogLevel::Debug => "debug"@,
    }
}

/// A level name that is not one.
#[derive(Debug, PartialEq, Eq)]
pub struct InvalidLogLevel {
    pub name: String,
}

impl InvalidLogLevel {
    /// The message shown for the refused name.
    pub fn message(&self) -> (m: String)
        ensures
            m@ == "Invalid log level: "@ + self.name@,
    {
        let mut m = String::new();
        crate::text::push_str(&mut m, "Invalid log level: ");
        crate::text::push_str(&mut m, self.name.as_str());
        m
    }
}

impl LogLevel {
    /// The name of the level in the unified log (a warning is logged at `default`).
    pub fn as_str(&self) -> (s: &'static str)
        ensures
            s@ == as_str_spec(*self),
    {
        match self {
            LogLevel::Error => "error",
            LogLevel::Warn => "default",
            LogLevel::Info => "info",
            LogLevel::Debug => "debug",
        }
    }

    /// Reads a level name, whatever its case: `error`, `warn` or `warning`, `info`, `debug`.
    pub fn from_str(s: &str) -> (r: Result<LogLevel, InvalidLogLevel>)
        ensures
            match level_of_name(lowercase(s@)) {
                Some(l) => r == Ok::<LogLevel, InvalidLogLevel>(l),
                None => r matches Err(e) && e.name@ == s@,
            },
    {
        let lower = to_lowercase(s);
        level_from_lowercase(s, lower.as_str())
    }
}

/// The level a lower-case name denotes.
pub open spec fn level_of_name(lower: Seq<char>) -> Option<LogLevel> {
    if lower == "error"@ {
        Some(LogLevel::Error)
    } else if lower == "warn"@ || lower == "warning"@ {
        Some(LogLevel::Warn)
    } else if lower == "info"@ {
        Some(LogLevel::Info)
    } else if lower == "debug"@ {
        Some(LogLevel::Debug)
    } else {
        None
    }
}

/// The level the lower-case name `lower` denotes (see `level_of_name`); `name` is the
/// name as it was given, which a refusal reports.
pub fn level_from_lowercase(name: &str, lower: &str) -> (r: Result<LogLevel, InvalidLogLevel>)
    ensures
        match level_of_name(lower@) {
            Some(l) => r == Ok::<LogLevel, InvalidLogLevel>(l),
            None => r matches Err(e) && e.name@ == name@,
        },
{
    if str_eq(lower, "error") {
        Ok(LogLevel::Error)
    } else if str_eq(lower, "warn") || str_eq(lower, "warning") {
        Ok(LogLevel::Warn)
    } else if str_eq(lower, "info") {
        Ok(LogLevel::Info)
    } else if str_eq(lower, "debug") {
        Ok(LogLevel::Debug)
    } else {
        Err(InvalidLogLevel { name: name.to_owned() })
    }
}

/// Whether two strings are equal.
fn str_eq(a: &str, b: &str) -> (r: bool)
    ensures
        r == (a@ == b@),
{
    let av = crate::text::chars_of(a);
    let bv = crate::text::chars_of(b);
    if av.len() != bv.len() {
        return false;
    }
    let mut k: usize = 0;
    while k < av.len()
        invariant
            av@ == a@,
            bv@ == b@,
            av@.len() == bv@.len(),
            k <= av@.len(),
            forall|l: int| 0 <= l < k ==> av@[l] == bv@[l],
        decreases av@.len() - k,
    {
        if av[k] != bv[k] {
            return false;
        }
        k = k + 1;
    }
    assert(av@ =~= bv@);
    true
}

/// The daemon's logger settings.
#[derive(Debug, Clone)]
pub struct DaemonLogger {
    pub subsystem: String,
    pub category: String,
    pub level: LogLevel,
}

impl DaemonLogger {
    /// A logger for `subsystem`, which must be in reverse DNS form (hold a `.`).
    pub fn new(subsystem: String, category: String, level: LogLevel) -> (r: Result<Self, crate::logging::LoggerError>)
        ensures
            crate::text::contains(subsystem@, seq!['.']) ==> (r matches Ok(lg) && lg.subsystem == subsystem
                && lg.category == category && lg.level == level),
            !crate::text::contains(subsystem@, seq!['.']) ==> r == Err::<Self, crate::logging::LoggerError>(
                crate::logging::LoggerError::SubsystemNotReverseDns,
            ),
    {
        proof {
            reveal_strlit(".");
        }
        assert("."@ =~= seq!['.']);
        if !crate::text::str_contains(subsystem.as_str(), ".") {
            return Err(crate::logging::LoggerError::SubsystemNotReverseDns);
        }
        Ok(DaemonLogger { subsystem, category, level })
    }

    /// Whether a record at `level` is written.
    pub fn should_log(&self, level: LogLevel) -> (b: bool)
        ensures
            b == should_log_spec(self.level, level),
    {
        match (self.level, level) {
            (LogLevel::Error, LogLevel::Error) => true,
            (LogLevel::Warn, LogLevel::Error) | (LogLevel::Warn, LogLevel::Warn) => true,
            (LogLevel::Info, LogLevel::Error) | (LogLevel::Info, LogLevel::Warn) | (
                LogLevel::Info,
                LogLevel::Info,
            ) => true,
            (LogLevel::Debug, _) => true,
            _ => false,
        }
    }

    /// The configured level.
    pub fn level(&self) -> (l: LogLevel)
        ensures
            l == self.level,
    {
        self.level
    }

    /// Changes the configured level.
    pub fn set_level(&mut self, level: LogLevel)
        ensures
            final(self).level == level,
            final(self).subsystem == old(self).subsystem,
            final(self).category == old(self).category,
    {
        self.level = level;
    }
}

/// A record is written exactly when its level is at least as severe as the configured one.
pub proof fn lemma_should_log_by_severity(configured: LogLevel, level: LogLevel)
    ensures
        should_log_spec(configured, level) <==> rank(level) <= rank(configured),
{
}

} // verus!
