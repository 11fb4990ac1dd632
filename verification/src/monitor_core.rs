//! The monitoring engine shared by the monitor and the daemon: which processes a poll
//! keeps, and which of them are new.
//!
//! Reading the process table and the entitlements of executables is done by the
//! caller; a poll hands the processes it read (with the entitlements of those whose
//! executable passes the path filters) to `scan_processes`.

use vstd::prelude::*;
use std::collections::HashMap;
use crate::models::{MonitoredProcess, PollingConfiguration, copy_strings, snapshot_keyed_by_pid, is_key_order, new_in_order, processes_view};
use crate::pattern_matcher::{any_filter_matches, entitlements_match_filters, strings_view};
use crate::path::path_starts_with;
use crate::tracker::{ProcessTracker, lemma_poll_reports_exactly_new_pids, path_under_filters, reports_exactly_new};

verus! {

broadcast use vstd::std_specs::hash::group_hash_axioms;

/// The filters of a monitoring pass.
#[derive(Debug, Clone)]
pub struct MonitoringConfig {
    pub path_filters: Vec<String>,
    pub entitlement_filters: Vec<String>,
}

impl MonitoringConfig {
    /// The filters of a polling configuration.
    pub fn from(polling_config: &PollingConfiguration) -> (c: Self)
        ensures
            c.path_filters@ == polling_config.path_filters@,
            c.entitlement_filters@ == polling_config.entitlement_filters@,
    {
        MonitoringConfig {
            path_filters: copy_strings(&polling_config.path_filters),
            entitlement_filters: copy_strings(&polling_config.entitlement_filters),
        }
    }

    /// Whether an executable lies under one of the path filters (any executable
    /// without them); only for those are entitlements read.
    pub fn admits_path(&self, executable_path: &String) -> (b: bool)
        ensures
            b == path_under_filters(executable_path@, strings_view(self.path_filters@)),
    {
        let ghost fv = strings_view(self.path_filters@);
        assert(fv.len() == self.path_filters@.len());
        let mut under = self.path_filters.len() == 0;
        let mut f: usize = 0;
        while !under && f < self.path_filters.len()
            invariant
                f <= self.path_filters@.len(),
                fv == strings_view(self.path_filters@),
                fv.len() == self.path_filters@.len(),
                under ==> path_under_filters(executable_path@, fv),
                !under ==> fv.len() > 0 && forall|g: int|
                    0 <= g < f ==> !#[trigger] crate::path::path_starts_with_spec(executable_path@, fv[g]),
            decreases self.path_filters@.len() - f,
        {
            if path_starts_with(executable_path.as_str(), self.path_filters[f].as_str()) {
                assert(crate::path::path_starts_with_spec(executable_path@, fv[f as int]));
                under = true;
            }
            f = f + 1;
        }
        under
    }
}

/// A process is kept by a poll: its executable lies under a path filter (any,
/// without them) and one of its entitlements matches a filter (any, without them).
pub open spec fn admitted(p: MonitoredProcess, paths: Seq<Seq<char>>, filters: Seq<Seq<char>>) -> bool {
    path_under_filters(p.executable_path@, paths) && any_filter_matches(strings_view(p.entitlements@), filters)
}

/// The processes of the first `n` candidates that a poll keeps, by process id (a
/// later candidate with the same id replaces an earlier one).
pub open spec fn admitted_map(
    cands: Seq<MonitoredProcess>,
    n: int,
    paths: Seq<Seq<char>>,
    filters: Seq<Seq<char>>,
) -> Map<u32, MonitoredProcess>
    decreases n,
{
    if n <= 0 {
        Map::empty()
    } else {
        let rest = admitted_map(cands, n - 1, paths, filters);
        let p = cands[n - 1];
        if admitted(p, paths, filters) {
            rest.insert(p.pid, p)
        } else {
            rest
        }
    }
}

/// Every process a poll keeps passes the filters, is stored under its own process
/// id, and is one of the candidates.
pub proof fn lemma_admitted_map_sound(
    cands: Seq<MonitoredProcess>,
    n: int,
    paths: Seq<Seq<char>>,
    filters: Seq<Seq<char>>,
)
    requires
        0 <= n <= cands.len(),
    ensures
        snapshot_keyed_by_pid(admitted_map(cands, n, paths, filters)),
        forall|k: u32| #[trigger] admitted_map(cands, n, paths, filters).contains_key(k) ==> admitted(
            admitted_map(cands, n, paths, filters)[k],
            paths,
            filters,
        ) && cands.take(n).contains(admitted_map(cands, n, paths, filters)[k]),
    decreases n,
{
    if n > 0 {
        lemma_admitted_map_sound(cands, n - 1, paths, filters);
        let m = admitted_map(cands, n, paths, filters);
        let rest = admitted_map(cands, n - 1, paths, filters);
        assert forall|k: u32| #[trigger] m.contains_key(k) implies m[k].pid == k && admitted(m[k], paths, filters)
            && cands.take(n).contains(m[k]) by {
            if admitted(cands[n - 1], paths, filters) && k == cands[n - 1].pid {
                assert(m[k] == cands[n - 1]);
                assert(cands.take(n)[n - 1] == cands[n - 1]);
            } else {
                assert(rest.contains_key(k));
                assert(m[k] == rest[k]);
                let t = cands.take(n - 1);
                assert(t.contains(rest[k]));
                let j = choose|j: int| 0 <= j < t.len() && #[trigger] t[j] == rest[k];
                assert(cands.take(n)[j] == t[j]);
            }
        }
    }
}

/// Every candidate a poll admits is kept: its pid is a key of the kept map.
pub proof fn lemma_admitted_map_complete(
    cands: Seq<MonitoredProcess>,
    n: int,
    paths: Seq<Seq<char>>,
    filters: Seq<Seq<char>>,
)
    requires
        0 <= n <= cands.len(),
    ensures
        forall|i: int| 0 <= i < n && admitted(#[trigger] cands[i], paths, filters) ==> admitted_map(
            cands,
            n,
            paths,
            filters,
        ).contains_key(cands[i].pid),
    decreases n,
{
    if n > 0 {
        lemma_admitted_map_complete(cands, n - 1, paths, filters);
    }
}

/// Without path filters every executable path passes them.
pub proof fn lemma_no_path_filter_admits_every_path(path: Seq<char>)
    ensures
        path_under_filters(path, Seq::empty()),
{
}

/// The monitoring engine: remembers the last poll to tell new processes apart.
pub struct ProcessMonitoringCore {
    tracker: ProcessTracker,
}

impl ProcessMonitoringCore {
    /// The processes of the last poll handed to `detect_new_processes`, if any.
    pub closed spec fn last_snapshot(&self) -> Option<Map<u32, MonitoredProcess>> {
        self.tracker.last_snapshot()
    }

    /// An engine that has seen no poll yet.
    pub fn new() -> (c: Self)
        ensures
            c.last_snapshot() is None,
    {
        ProcessMonitoringCore { tracker: ProcessTracker::new() }
    }

    /// The processes of a poll that pass the filters of `config`, by process id.
    /// `candidates` are the processes the poll read, in the order read.
    pub fn scan_processes(&self, config: &MonitoringConfig, candidates: Vec<MonitoredProcess>) -> (r: HashMap<
        u32,
        MonitoredProcess,
    >)
        ensures
            r@ == admitted_map(
                candidates@,
                candidates@.len() as int,
                strings_view(config.path_filters@),
                strings_view(config.entitlement_filters@),
            ),
    {
        let ghost paths = strings_view(config.path_filters@);
        let ghost filters = strings_view(config.entitlement_filters@);
        let mut r: HashMap<u32, MonitoredProcess> = HashMap::new();
        for p in it: candidates.into_iter()
            invariant
                it.seq() == candidates@,
                paths == strings_view(config.path_filters@),
                filters == strings_view(config.entitlement_filters@),
                r@ == admitted_map(candidates@, it.index() as int, paths, filters),
        {
            assert(candidates@[it.index() as int] == p);
            if config.admits_path(&p.executable_path) && entitlements_match_filters(
                p.entitlements.as_slice(),
                config.entitlement_filters.as_slice(),
            ) {
                let pid = p.pid;
                r.insert(pid, p);
            }
        }
        r
    }

    /// Records the processes of a poll and returns those whose process id was not
    /// in the previous poll (nothing on the first poll).
    pub fn detect_new_processes(&mut self, current_processes: HashMap<u32, MonitoredProcess>) -> (r: Vec<
        MonitoredProcess,
    >)
        ensures
            final(self).last_snapshot() == Some(current_processes@),
            old(self).last_snapshot() is None ==> r@.len() == 0,
            old(self).last_snapshot() matches Some(prev) ==> exists|order: Seq<u32>|
                is_key_order(order, current_processes@) && processes_view(r@) == new_in_order(
                    order,
                    order.len() as int,
                    current_processes@,
                    prev,
                ),
    {
        let snapshot = crate::models::ProcessSnapshot { processes: current_processes };
        self.tracker.detect_new_processes(snapshot)
    }

    /// Filters a poll and returns its new processes: exactly the kept processes whose
    /// pid was not kept by the previous poll, each once.
    pub fn scan_and_detect_new(&mut self, config: &MonitoringConfig, candidates: Vec<MonitoredProcess>) -> (r:
        Vec<MonitoredProcess>)
        ensures
            ({
                let kept = admitted_map(
                    candidates@,
                    candidates@.len() as int,
                    strings_view(config.path_filters@),
                    strings_view(config.entitlement_filters@),
                );
                &&& final(self).last_snapshot() == Some(kept)
                &&& old(self).last_snapshot() is None ==> r@.len() == 0
                &&& old(self).last_snapshot() matches Some(prev) ==> exists|order: Seq<u32>|
                    is_key_order(order, kept) && processes_view(r@) == new_in_order(
                        order,
                        order.len() as int,
                        kept,
                        prev,
                    )
                &&& old(self).last_snapshot() matches Some(prev) ==> reports_exactly_new(processes_view(r@), kept, prev)
            }),
    {
        let ghost before = self.last_snapshot();
        let current = self.scan_processes(config, candidates);
        let ghost kept = current@;
        proof {
            lemma_admitted_map_sound(
                candidates@,
                candidates@.len() as int,
                strings_view(config.path_filters@),
                strings_view(config.entitlement_filters@),
            );
        }
        let r = self.detect_new_processes(current);
        proof {
            if let Some(prev) = before {
                let order = choose|order: Seq<u32>|
                    is_key_order(order, kept) && processes_view(r@) == new_in_order(order, order.len() as int, kept, prev);
                lemma_poll_reports_exactly_new_pids(order, kept, prev);
            }
        }
        r
    }
}

impl Default for ProcessMonitoringCore {
    fn default() -> (c: Self)
        ensures
            c.last_snapshot() is None,
    {
        Self::new()
    }
}

} // verus!
