//! The data the scanner and the process monitor pass around.

use vstd::prelude::*;
use std::collections::HashMap;
use std::time::{Duration, SystemTime};
use crate::entitlements::EntitlementMap;
use vstd::std_specs::iter::IteratorSpec;

verus! {

broadcast use vstd::std_specs::hash::group_hash_axioms;

/// A point in time, carried through unread.
#[verifier::external_type_specification]
#[verifier::external_body]
pub struct ExSystemTime(std::time::SystemTime);

/// One binary of a static scan with the entitlements that are reported for it.
#[derive(Debug, Clone)]
pub struct BinaryResult {
    /// Path of the binary.
    pub path: String,
    /// The reported entitlements.
    pub entitlements: EntitlementMap,
    /// How many entitlements are reported.
    pub entitlement_count: usize,
}

/// Totals of a static scan.
#[derive(Debug, Clone, Copy, PartialEq, Eq)]
pub struct ScanSummary {
    /// Binaries whose entitlements were read (or attempted).
    pub scanned: usize,
    /// Binaries reported in the results.
    pub matched: usize,
    /// Binaries whose entitlements could not be read.
    pub skipped_unreadable: usize,
    /// Duration of the scan in milliseconds.
    pub duration_ms: u64,
    /// `Some(true)` when the scan was interrupted; absent otherwise.
    pub interrupted: Option<bool>,
}

/// The complete result of a static scan.
#[derive(Debug, Clone)]
pub struct EntitlementScanOutput {
    pub results: Vec<BinaryResult>,
    pub summary: ScanSummary,
}

/// Filters of a static scan.
#[derive(Debug, Clone)]
pub struct ScanFilters {
    /// Entitlement filters (exact keys or glob patterns); none means all.
    pub entitlements: Vec<String>,
}

impl Default for ScanFilters {
    fn default() -> (r: Self)
        ensures
            r.entitlements@.len() == 0,
    {
        ScanFilters { entitlements: Vec::new() }
    }
}

/// Configuration of a static scan.
#[derive(Debug, Clone)]
pub struct ScanConfig {
    /// Files and directories to scan.
    pub scan_paths: Vec<String>,
    /// Filters.
    pub filters: ScanFilters,
    /// Output JSON.
    pub json_output: bool,
    /// Suppress warnings and progress.
    pub quiet_mode: bool,
}

/// A running process and its entitlements.
#[derive(Debug)]
pub struct MonitoredProcess {
    /// Process id.
    pub pid: u32,
    /// Process name.
    pub name: String,
    /// Path of the executable.
    pub executable_path: String,
    /// Entitlement keys of the executable.
    pub entitlements: Vec<String>,
    /// When the process was first seen.
    pub discovery_timestamp: SystemTime,
}

/// Copies a list of strings.
pub fn copy_strings(v: &Vec<String>) -> (r: Vec<String>)
    ensures
        r@ == v@,
{
    let mut r: Vec<String> = Vec::new();
    let mut i: usize = 0;
    while i < v.len()
        invariant
            i <= v@.len(),
            r@ == v@.take(i as int),
        decreases v@.len() - i,
    {
        r.push(v[i].clone());
        assert(v@.take(i + 1) =~= v@.take(i as int).push(v@[i as int]));
        i = i + 1;
    }
    assert(v@.take(v@.len() as int) =~= v@);
    r
}

/// The mathematical value of a monitored process.
pub struct ProcessView {
    pub pid: u32,
    pub name: Seq<char>,
    pub executable_path: Seq<char>,
    pub entitlements: Seq<String>,
    pub discovery_timestamp: SystemTime,
}

impl View for MonitoredProcess {
    type V = ProcessView;

    open spec fn view(&self) -> ProcessView {
        ProcessView {
            pid: self.pid,
            name: self.name@,
            executable_path: self.executable_path@,
            entitlements: self.entitlements@,
            discovery_timestamp: self.discovery_timestamp,
        }
    }
}

/// The views of a list of processes.
pub open spec fn processes_view(v: Seq<MonitoredProcess>) -> Seq<ProcessView> {
    v.map_values(|p: MonitoredProcess| p@)
}

impl MonitoredProcess {
    /// An identical copy.
    pub fn copy(&self) -> (r: Self)
        ensures
            r@ == self@,
    {
        MonitoredProcess {
            pid: self.pid,
            name: self.name.clone(),
            executable_path: self.executable_path.clone(),
            entitlements: copy_strings(&self.entitlements),
            discovery_timestamp: self.discovery_timestamp,
        }
    }
}

/// Configuration of the monitor.
#[derive(Debug)]
pub struct PollingConfiguration {
    /// Time between two polls.
    pub interval: Duration,
    /// Only executables under one of these paths are reported (none: all).
    pub path_filters: Vec<String>,
    /// Only processes with an entitlement matching one of these filters are reported (none: all).
    pub entitlement_filters: Vec<String>,
    /// Output JSON.
    pub output_json: bool,
    /// Suppress the banner.
    pub quiet_mode: bool,
}

/// The processes seen by one poll, by process id.
#[derive(Debug)]
pub struct ProcessSnapshot {
    pub processes: HashMap<u32, MonitoredProcess>,
}

/// Every process is stored under its own process id.
pub open spec fn snapshot_keyed_by_pid(m: Map<u32, MonitoredProcess>) -> bool {
    forall|k: u32| #[trigger] m.contains_key(k) ==> m[k].pid == k
}

/// The processes of `cur` under the first `n` keys of `order`, in that order,
/// whose pid is not a key of `prev`.
pub open spec fn new_in_order(
    order: Seq<u32>,
    n: int,
    cur: Map<u32, MonitoredProcess>,
    prev: Map<u32, MonitoredProcess>,
) -> Seq<ProcessView>
    decreases n,
{
    if n <= 0 {
        Seq::empty()
    } else {
        let rest = new_in_order(order, n - 1, cur, prev);
        let p = cur[order[n - 1]];
        if prev.contains_key(p.pid) {
            rest
        } else {
            rest.push(p@)
        }
    }
}

/// `order` lists every key of `m` exactly once.
pub open spec fn is_key_order(order: Seq<u32>, m: Map<u32, MonitoredProcess>) -> bool {
    order.no_duplicates() && order.to_set() == m.dom()
}

impl ProcessSnapshot {
    /// The processes of this snapshot whose pid was not in `previous`, in the
    /// (unspecified) order in which the map is walked.
    pub fn new_processes(&self, previous: &ProcessSnapshot) -> (r: Vec<MonitoredProcess>)
        ensures
            exists|order: Seq<u32>|
                is_key_order(order, self.processes@) && processes_view(r@) == new_in_order(
                    order,
                    order.len() as int,
                    self.processes@,
                    previous.processes@,
                ),
    {
        let mut r: Vec<MonitoredProcess> = Vec::new();
        let ghost cur = self.processes@;
        let ghost prev = previous.processes@;
        let ghost order = vstd::std_specs::hash::spec_keys_iter(&self.processes).remaining().unref();
        assert(order.to_set() == cur.dom());
        assert(vstd::std_specs::hash::spec_keys_iter(&self.processes).remaining().no_duplicates());
        for k in it: self.processes.keys()
            invariant
                it.seq().unref() == order,
                cur == self.processes@,
                prev == previous.processes@,
                it.seq().unref().to_set() == cur.dom(),
                it.seq().no_duplicates(),
                processes_view(r@) == new_in_order(order, it.index() as int, cur, prev),
            ensures
                processes_view(r@) == new_in_order(order, order.len() as int, cur, prev),
                is_key_order(order, cur),
        {
            assert(order[it.index() as int] == *k);
            assert(order.to_set().contains(*k));
            let p = self.processes.get(k).unwrap();
            if !previous.processes.contains_key(&p.pid) {
                let ghost before = processes_view(r@);
                r.push(p.copy());
                assert(processes_view(r@) =~= before.push(p@));
            }
        }
        r
    }
}

/// A matched entitlement.
#[derive(Debug, Clone, PartialEq, Eq)]
pub struct EntitlementMatch {
    /// The entitlement key that matched.
    pub key: String,
    /// The filter it matched.
    pub pattern: String,
    /// Whether the filter was an exact key.
    pub exact_match: bool,
}

/// One log record.
#[derive(Debug)]
pub struct LogEntry {
    pub level: String,
    pub message: String,
    pub timestamp: SystemTime,
    pub process_context: Option<MonitoredProcess>,
}

} // verus!
