//! Availability of the unified logging system.

use vstd::prelude::*;

verus! {

/// Why unified logging cannot be used.
#[derive(Debug, Clone, Copy, PartialEq, Eq, Structural)]
pub enum UnifiedLoggingError {
    /// Not running on macOS.
    NotMacOs,
}

impl UnifiedLoggingError {
    /// The message shown for the error.
    pub fn message(&self) -> (s: &'static str)
        ensures
            s@ == "Unified Logging only available on macOS"@,
    {
        "Unified Logging only available on macOS"
    }
}

/// Sets up unified logging: available on macOS only (`on_macos` tells whether the
/// program was built for it).
pub fn init_logger(on_macos: bool) -> (r: Result<(), UnifiedLoggingError>)
    ensures
        on_macos ==> r is Ok,
        !on_macos ==> r == Err::<(), UnifiedLoggingError>(UnifiedLoggingError::NotMacOs),
{
    if on_macos {
        Ok(())
    } else {
        Err(UnifiedLoggingError::NotMacOs)
    }
}

} // verus!
