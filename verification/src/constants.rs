//! Names shared by the scanner, the daemon and its service definition.

use vstd::prelude::*;

verus! {

/// Subsystem of the unified log; also the LaunchD label and the daemon's identity.
pub const APP_SUBSYSTEM: &'static str = "com.microsoft.sysinternals.listent";

/// Log category of the daemon.
pub const DAEMON_CATEGORY: &'static str = "daemon";

/// File name of the LaunchD property list.
pub const LAUNCHD_PLIST_NAME: &'static str = "com.microsoft.sysinternals.listent.plist";

/// LaunchD service label (the subsystem).
pub const LAUNCHD_SERVICE_NAME: &'static str = "com.microsoft.sysinternals.listent";

} // verus!
