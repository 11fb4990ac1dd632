//! Monitoring settings of the daemon.

use vstd::prelude::*;

verus! {

/// What the daemon watches.
#[derive(Debug, Clone)]
pub struct MonitoringSettings {
    /// Only executables under these paths are reported (none: all).
    pub path_filters: Vec<String>,
    /// Only processes with an entitlement matching one of these are reported (none: all).
    pub entitlement_filters: Vec<String>,
}

} // verus!
