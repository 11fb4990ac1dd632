//! Tracking processes between polls, and the filters applied to new processes.

use vstd::prelude::*;
use crate::models::{
    MonitoredProcess, PollingConfiguration, ProcessSnapshot, ProcessView, is_key_order,
    new_in_order, processes_view, snapshot_keyed_by_pid,
};
use crate::path::{path_starts_with, path_starts_with_spec};
use crate::pattern_matcher::{any_filter_matches, entitlements_match_filters, strings_view};

verus! {

broadcast use vstd::std_specs::vec::axiom_spec_into_iter;

/// The processes among the first `n` of `ps` that satisfy `pred`, in order.
pub open spec fn filter_prefix(ps: Seq<ProcessView>, n: int, pred: spec_fn(ProcessView) -> bool) -> Seq<
    ProcessView,
>
    decreases n,
{
    if n <= 0 {
        Seq::empty()
    } else {
        let rest = filter_prefix(ps, n - 1, pred);
        if pred(ps[n - 1]) {
            rest.push(ps[n - 1])
        } else {
            rest
        }
    }
}

/// The processes of `ps` that satisfy `pred`, in order.
pub open spec fn filter_procs(ps: Seq<ProcessView>, pred: spec_fn(ProcessView) -> bool) -> Seq<ProcessView> {
    filter_prefix(ps, ps.len() as int, pred)
}

/// `path` lies under one of the paths (any path when there are none).
pub open spec fn path_under_filters(path: Seq<char>, filters: Seq<Seq<char>>) -> bool {
    filters.len() == 0 || exists|f: int| 0 <= f < filters.len() && #[trigger] path_starts_with_spec(path, filters[f])
}

/// The executable lies under one of the paths (any path when there are none).
pub open spec fn under_path_filters(filters: Seq<Seq<char>>) -> spec_fn(ProcessView) -> bool {
    |p: ProcessView| path_under_filters(p.executable_path, filters)
}

/// One of the entitlements matches one of the filters (anything when there are none).
pub open spec fn matches_entitlement_filters(filters: Seq<Seq<char>>) -> spec_fn(ProcessView) -> bool {
    |p: ProcessView| any_filter_matches(strings_view(p.entitlements), filters)
}

/// The process has at least one entitlement.
pub open spec fn has_entitlements() -> spec_fn(ProcessView) -> bool {
    |p: ProcessView| p.entitlements.len() > 0
}

pub proof fn lemma_filter_all(ps: Seq<ProcessView>, n: int, pred: spec_fn(ProcessView) -> bool)
    requires
        0 <= n <= ps.len(),
        forall|k: int| 0 <= k < ps.len() ==> pred(#[trigger] ps[k]),
    ensures
        filter_prefix(ps, n, pred) == ps.take(n),
    decreases n,
{
    if n > 0 {
        lemma_filter_all(ps, n - 1, pred);
        assert(ps.take(n) =~= ps.take(n - 1).push(ps[n - 1]));
    }
}

/// Keeps the processes that satisfy `keep`, in order (the loop behind every filter here).
pub(crate) fn retain_processes(processes: Vec<MonitoredProcess>, filters: &[String], which: u8) -> (r: Vec<MonitoredProcess>)
    requires
        which == 0 || which == 1 || which == 2,
    ensures
        processes_view(r@) == filter_procs(processes_view(processes@), select_pred(which, strings_view(filters@))),
{
    let ghost pred = select_pred(which, strings_view(filters@));
    let ghost ps = processes_view(processes@);
    let mut r: Vec<MonitoredProcess> = Vec::new();
    for p in it: processes.into_iter()
        invariant
            it.seq() == processes@,
            ps == processes_view(processes@),
            pred == select_pred(which, strings_view(filters@)),
            which == 0 || which == 1 || which == 2,
            processes_view(r@) == filter_prefix(ps, it.index() as int, pred),
    {
        assert(ps[it.index() as int] == p@);
        let keep = if which == 0 {
            p.entitlements.len() > 0
        } else if which == 1 {
            let b = under_any_path(&p.executable_path, filters);
            assert(strings_view(filters@).len() == filters@.len());
            assert(b == pred(p@));
            b
        } else {
            let b = entitlements_match_filters(p.entitlements.as_slice(), filters);
            assert(b == pred(p@));
            b
        };
        assert(keep == pred(p@));
        if keep {
            let ghost before = processes_view(r@);
            let ghost pv = p@;
            r.push(p);
            assert(processes_view(r@) =~= before.push(pv));
        }
    }
    r
}

/// The predicate a `retain_processes` call keeps.
pub open spec fn select_pred(which: u8, filters: Seq<Seq<char>>) -> spec_fn(ProcessView) -> bool {
    if which == 0 {
        has_entitlements()
    } else if which == 1 {
        under_path_filters(filters)
    } else {
        matches_entitlement_filters(filters)
    }
}

/// Whether `path` lies under one of `filters` (any path when there are none).
fn under_any_path(path: &String, filters: &[String]) -> (b: bool)
    ensures
        b == path_under_filters(path@, strings_view(filters@)),
{
    let ghost fv = strings_view(filters@);
    assert(fv.len() == filters@.len());
    if filters.len() == 0 {
        return true;
    }
    let mut f: usize = 0;
    while f < filters.len()
        invariant
            f <= filters@.len(),
            fv == strings_view(filters@),
            forall|g: int| 0 <= g < f ==> !#[trigger] path_starts_with_spec(path@, fv[g]),
        decreases filters@.len() - f,
    {
        if path_starts_with(path.as_str(), filters[f].as_str()) {
            assert(path_starts_with_spec(path@, fv[f as int]));
            return true;
        }
        f = f + 1;
    }
    false
}


/// Every process a filter keeps satisfies it and comes from the input; every
/// process of the input that satisfies it is kept.
pub proof fn lemma_filter_keeps_exactly(ps: Seq<ProcessView>, n: int, pred: spec_fn(ProcessView) -> bool)
    requires
        0 <= n <= ps.len(),
    ensures
        forall|i: int| 0 <= i < filter_prefix(ps, n, pred).len() ==> pred(#[trigger] filter_prefix(ps, n, pred)[i])
            && ps.take(n).contains(filter_prefix(ps, n, pred)[i]),
        forall|k: int| 0 <= k < n && pred(#[trigger] ps[k]) ==> filter_prefix(ps, n, pred).contains(ps[k]),
        filter_prefix(ps, n, pred).len() <= n,
    decreases n,
{
    if n > 0 {
        lemma_filter_keeps_exactly(ps, n - 1, pred);
        let rest = filter_prefix(ps, n - 1, pred);
        let out = filter_prefix(ps, n, pred);
        assert forall|i: int| 0 <= i < out.len() implies pred(#[trigger] out[i]) && ps.take(n).contains(out[i]) by {
            if i < rest.len() {
                assert(out[i] == rest[i]);
                let j = choose|j: int| 0 <= j < ps.take(n - 1).len() && #[trigger] ps.take(n - 1)[j] == rest[i];
                assert(ps.take(n)[j] == rest[i]);
            } else {
                assert(out[i] == ps[n - 1]);
                assert(ps.take(n)[n - 1] == ps[n - 1]);
            }
        }
        assert forall|k: int| 0 <= k < n && pred(#[trigger] ps[k]) implies out.contains(ps[k]) by {
            if k < n - 1 {
                let j = choose|j: int| 0 <= j < rest.len() && #[trigger] rest[j] == ps[k];
                assert(out[j] == ps[k]);
            } else {
                assert(out[out.len() - 1] == ps[k]);
            }
        }
    }
}

/// A process is reported as new only if it is in the current snapshot and its pid
/// was not a key of the previous one.
pub proof fn lemma_reported_processes_are_new(
    order: Seq<u32>,
    n: int,
    cur: Map<u32, MonitoredProcess>,
    prev: Map<u32, MonitoredProcess>,
)
    requires
        0 <= n <= order.len(),
    ensures
        forall|i: int| 0 <= i < new_in_order(order, n, cur, prev).len() ==> {
            let r = #[trigger] new_in_order(order, n, cur, prev)[i];
            &&& !prev.contains_key(r.pid)
            &&& exists|j: int| 0 <= j < n && r == #[trigger] cur[order[j]]@
        },
    decreases n,
{
    if n > 0 {
        lemma_reported_processes_are_new(order, n - 1, cur, prev);
        let rest = new_in_order(order, n - 1, cur, prev);
        let out = new_in_order(order, n, cur, prev);
        assert forall|i: int| 0 <= i < out.len() implies {
            let r = #[trigger] out[i];
            &&& !prev.contains_key(r.pid)
            &&& exists|j: int| 0 <= j < n && r == #[trigger] cur[order[j]]@
        } by {
            if i < rest.len() {
                assert(out[i] == rest[i]);
                let j = choose|j: int| 0 <= j < n - 1 && rest[i] == #[trigger] cur[order[j]]@;
                assert(0 <= j < n && out[i] == cur[order[j]]@);
            } else {
                assert(out[i] == cur[order[n - 1]]@);
            }
        }
    }
}

/// `r` is exactly the processes of `cur` whose pid is not a key of `prev`, each once.
pub open spec fn reports_exactly_new(
    r: Seq<ProcessView>,
    cur: Map<u32, MonitoredProcess>,
    prev: Map<u32, MonitoredProcess>,
) -> bool {
    &&& forall|i: int| #![trigger r[i]] 0 <= i < r.len() ==> cur.contains_key(r[i].pid) && !prev.contains_key(r[i].pid)
        && r[i] == cur[r[i].pid]@
    &&& forall|k: u32| #[trigger] cur.contains_key(k) && !prev.contains_key(k) ==> exists|i: int| 0 <= i < r.len() && r[i].pid == k
    &&& forall|a: int, b: int| 0 <= a < b < r.len() ==> #[trigger] r[a].pid != #[trigger] r[b].pid
}

/// The pid of a process of `cur` stored under `order[j]` is `order[j]`.
pub open spec fn pid_at(order: Seq<u32>, cur: Map<u32, MonitoredProcess>, r: ProcessView, n: int) -> bool {
    exists|j: int| 0 <= j < n && #[trigger] order[j] == r.pid && r == cur[order[j]]@
}

proof fn lemma_new_pids_sound(
    order: Seq<u32>,
    n: int,
    cur: Map<u32, MonitoredProcess>,
    prev: Map<u32, MonitoredProcess>,
)
    requires
        snapshot_keyed_by_pid(cur),
        is_key_order(order, cur),
        0 <= n <= order.len(),
    ensures
        forall|i: int| 0 <= i < new_in_order(order, n, cur, prev).len() ==> pid_at(
            order,
            cur,
            #[trigger] new_in_order(order, n, cur, prev)[i],
            n,
        ),
    decreases n,
{
    if n > 0 {
        lemma_new_pids_sound(order, n - 1, cur, prev);
        let rest = new_in_order(order, n - 1, cur, prev);
        let out = new_in_order(order, n, cur, prev);
        let k = order[n - 1];
        assert(order.to_set().contains(k));
        assert(cur[k].pid == k);
        assert forall|i: int| 0 <= i < out.len() implies pid_at(order, cur, #[trigger] out[i], n) by {
            if i < rest.len() {
                assert(out[i] == rest[i]);
                assert(pid_at(order, cur, rest[i], n - 1));
                let j = choose|j: int| 0 <= j < n - 1 && #[trigger] order[j] == rest[i].pid && rest[i] == cur[order[j]]@;
                assert(order[j] == out[i].pid);
            } else {
                assert(out[i] == cur[k]@);
                assert(order[n - 1] == out[i].pid);
            }
        }
    }
}

proof fn lemma_new_pids_complete(
    order: Seq<u32>,
    n: int,
    cur: Map<u32, MonitoredProcess>,
    prev: Map<u32, MonitoredProcess>,
)
    requires
        snapshot_keyed_by_pid(cur),
        is_key_order(order, cur),
        0 <= n <= order.len(),
    ensures
        forall|j: int| 0 <= j < n && !prev.contains_key(#[trigger] order[j]) ==> exists|i: int|
            0 <= i < new_in_order(order, n, cur, prev).len() && new_in_order(order, n, cur, prev)[i].pid == order[j],
    decreases n,
{
    if n > 0 {
        lemma_new_pids_complete(order, n - 1, cur, prev);
        let rest = new_in_order(order, n - 1, cur, prev);
        let out = new_in_order(order, n, cur, prev);
        let k = order[n - 1];
        assert(order.to_set().contains(k));
        assert(cur[k].pid == k);
        assert forall|j: int| 0 <= j < n && !prev.contains_key(#[trigger] order[j]) implies exists|i: int|
            0 <= i < out.len() && out[i].pid == order[j] by {
            if j < n - 1 {
                let i = choose|i: int| 0 <= i < rest.len() && rest[i].pid == order[j];
                assert(out[i] == rest[i]);
            } else {
                assert(out[out.len() - 1] == cur[k]@);
            }
        }
    }
}

proof fn lemma_new_pids_distinct(
    order: Seq<u32>,
    n: int,
    cur: Map<u32, MonitoredProcess>,
    prev: Map<u32, MonitoredProcess>,
)
    requires
        snapshot_keyed_by_pid(cur),
        is_key_order(order, cur),
        0 <= n <= order.len(),
    ensures
        forall|a: int, b: int|
            0 <= a < b < new_in_order(order, n, cur, prev).len() ==> #[trigger] new_in_order(order, n, cur, prev)[a].pid
                != #[trigger] new_in_order(order, n, cur, prev)[b].pid,
    decreases n,
{
    if n > 0 {
        lemma_new_pids_distinct(order, n - 1, cur, prev);
        lemma_new_pids_sound(order, n - 1, cur, prev);
        let rest = new_in_order(order, n - 1, cur, prev);
        let out = new_in_order(order, n, cur, prev);
        let k = order[n - 1];
        assert(order.to_set().contains(k));
        assert(cur[k].pid == k);
        assert forall|a: int, b: int| 0 <= a < b < out.len() implies #[trigger] out[a].pid != #[trigger] out[b].pid by {
            if b < rest.len() {
                assert(out[a] == rest[a] && out[b] == rest[b]);
            } else {
                assert(out[a] == rest[a]);
                assert(pid_at(order, cur, rest[a], n - 1));
                let j = choose|j: int| 0 <= j < n - 1 && #[trigger] order[j] == rest[a].pid && rest[a] == cur[order[j]]@;
                assert(out[b] == cur[k]@);
                assert(order.no_duplicates());
                assert(order[j] != order[n - 1]);
            }
        }
    }
}

/// Each poll reports exactly the processes whose pid was not in the previous poll,
/// each once (when every process of the poll is stored under its own pid).
pub proof fn lemma_poll_reports_exactly_new_pids(
    order: Seq<u32>,
    cur: Map<u32, MonitoredProcess>,
    prev: Map<u32, MonitoredProcess>,
)
    requires
        snapshot_keyed_by_pid(cur),
        is_key_order(order, cur),
    ensures
        reports_exactly_new(new_in_order(order, order.len() as int, cur, prev), cur, prev),
{
    let n = order.len() as int;
    lemma_new_pids_sound(order, n, cur, prev);
    lemma_new_pids_complete(order, n, cur, prev);
    lemma_new_pids_distinct(order, n, cur, prev);
    lemma_reported_processes_are_new(order, n, cur, prev);
    let r = new_in_order(order, n, cur, prev);
    assert forall|i: int| #![trigger r[i]] 0 <= i < r.len() implies cur.contains_key(r[i].pid) && !prev.contains_key(
        r[i].pid,
    ) && r[i] == cur[r[i].pid]@ by {
        assert(pid_at(order, cur, r[i], n));
        let j = choose|j: int| 0 <= j < n && #[trigger] order[j] == r[i].pid && r[i] == cur[order[j]]@;
        assert(order.to_set().contains(order[j]));
    }
    assert forall|k: u32| #[trigger] cur.contains_key(k) && !prev.contains_key(k) implies exists|i: int|
        0 <= i < r.len() && r[i].pid == k by {
        assert(cur.dom().contains(k));
        assert(order.to_set().contains(k));
        let j = choose|j: int| 0 <= j < order.len() && order[j] == k;
        assert(!prev.contains_key(order[j]));
    }
}

/// Giving the tracker the same snapshot twice reports nothing the second time
/// (when every process is stored under its own pid).
pub proof fn lemma_same_snapshot_reports_nothing(order: Seq<u32>, n: int, m: Map<u32, MonitoredProcess>)
    requires
        snapshot_keyed_by_pid(m),
        is_key_order(order, m),
        0 <= n <= order.len(),
    ensures
        new_in_order(order, n, m, m).len() == 0,
    decreases n,
{
    if n > 0 {
        lemma_same_snapshot_reports_nothing(order, n - 1, m);
        let k = order[n - 1];
        assert(order.to_set().contains(k));
        assert(m.contains_key(k));
        assert(m[k].pid == k);
    }
}

/// Everything `apply_filters` keeps has entitlements, lies under a path filter
/// and matches an entitlement filter.
pub proof fn lemma_apply_filters_sound(ps: Seq<ProcessView>, paths: Seq<Seq<char>>, filters: Seq<Seq<char>>)
    ensures
        forall|i: int| 0 <= i < filter_procs(filter_procs(filter_procs(ps, has_entitlements()), under_path_filters(paths)), matches_entitlement_filters(filters)).len() ==> {
            let p = #[trigger] filter_procs(filter_procs(filter_procs(ps, has_entitlements()), under_path_filters(paths)), matches_entitlement_filters(filters))[i];
            &&& p.entitlements.len() > 0
            &&& path_under_filters(p.executable_path, paths)
            &&& any_filter_matches(strings_view(p.entitlements), filters)
            &&& ps.contains(p)
        },
{
    let a = filter_procs(ps, has_entitlements());
    let b = filter_procs(a, under_path_filters(paths));
    let c = filter_procs(b, matches_entitlement_filters(filters));
    lemma_filter_keeps_exactly(ps, ps.len() as int, has_entitlements());
    lemma_filter_keeps_exactly(a, a.len() as int, under_path_filters(paths));
    lemma_filter_keeps_exactly(b, b.len() as int, matches_entitlement_filters(filters));
    assert(ps.take(ps.len() as int) =~= ps);
    assert(a.take(a.len() as int) =~= a);
    assert(b.take(b.len() as int) =~= b);
    assert forall|i: int| 0 <= i < c.len() implies {
        let p = #[trigger] c[i];
        &&& p.entitlements.len() > 0
        &&& path_under_filters(p.executable_path, paths)
        &&& any_filter_matches(strings_view(p.entitlements), filters)
        &&& ps.contains(p)
    } by {
        let p = c[i];
        assert(matches_entitlement_filters(filters)(p));
        let jb = choose|j: int| 0 <= j < b.len() && #[trigger] b[j] == p;
        assert(under_path_filters(paths)(b[jb]));
        let ja = choose|j: int| 0 <= j < a.len() && #[trigger] a[j] == b[jb];
        assert(has_entitlements()(a[ja]));
    }
}

/// Keeps track of the last poll, to tell which processes are new.
pub struct ProcessTracker {
    current_snapshot: Option<ProcessSnapshot>,
}

impl ProcessTracker {
    /// The processes of the last snapshot given, if any.
    pub closed spec fn last_snapshot(&self) -> Option<Map<u32, MonitoredProcess>> {
        match self.current_snapshot {
            Some(s) => Some(s.processes@),
            None => None,
        }
    }

    /// A tracker that has seen no snapshot yet.
    pub fn new() -> (t: Self)
        ensures
            t.last_snapshot() is None,
    {
        ProcessTracker { current_snapshot: None }
    }

    /// Records `new_snapshot` and returns its processes whose pid was not in the
    /// previous snapshot. The first snapshot reports nothing, so that the
    /// processes already running at start-up are not reported.
    pub fn detect_new_processes(&mut self, new_snapshot: ProcessSnapshot) -> (r: Vec<MonitoredProcess>)
        ensures
            final(self).last_snapshot() == Some(new_snapshot.processes@),
            old(self).last_snapshot() is None ==> r@.len() == 0,
            old(self).last_snapshot() matches Some(prev) ==> exists|order: Seq<u32>|
                is_key_order(order, new_snapshot.processes@) && processes_view(r@) == new_in_order(
                    order,
                    order.len() as int,
                    new_snapshot.processes@,
                    prev,
                ),
    {
        let new_processes = match &self.current_snapshot {
            None => Vec::new(),
            Some(previous) => new_snapshot.new_processes(previous),
        };
        self.current_snapshot = Some(new_snapshot);
        new_processes
    }

    /// Keeps the processes whose executable lies under one of `path_filters`
    /// (all of them when there is no filter), in order.
    pub fn apply_path_filters(processes: Vec<MonitoredProcess>, path_filters: &[String]) -> (r: Vec<
        MonitoredProcess,
    >)
        ensures
            processes_view(r@) == filter_procs(
                processes_view(processes@),
                under_path_filters(strings_view(path_filters@)),
            ),
    {
        if path_filters.len() == 0 {
            proof {
                lemma_filter_all(
                    processes_view(processes@),
                    processes@.len() as int,
                    under_path_filters(strings_view(path_filters@)),
                );
                assert(processes_view(processes@).take(processes@.len() as int) =~= processes_view(processes@));
            }
            return processes;
        }
        retain_processes(processes, path_filters, 1)
    }

    /// Keeps the processes with an entitlement that matches one of
    /// `entitlement_filters` (all of them when there is no filter), in order.
    pub fn apply_entitlement_filters(processes: Vec<MonitoredProcess>, entitlement_filters: &[String]) -> (r:
        Vec<MonitoredProcess>)
        ensures
            processes_view(r@) == filter_procs(
                processes_view(processes@),
                matches_entitlement_filters(strings_view(entitlement_filters@)),
            ),
    {
        retain_processes(processes, entitlement_filters, 2)
    }
}

/// The filters the monitor applies to new processes: processes without
/// entitlements are dropped, then the path filters and the entitlement filters apply.
pub fn apply_filters(processes: Vec<MonitoredProcess>, config: &PollingConfiguration) -> (r: Vec<
    MonitoredProcess,
>)
    ensures
        processes_view(r@) == filter_procs(
            filter_procs(
                filter_procs(processes_view(processes@), has_entitlements()),
                under_path_filters(strings_view(config.path_filters@)),
            ),
            matches_entitlement_filters(strings_view(config.entitlement_filters@)),
        ),
{
    let with_entitlements = retain_processes(processes, config.entitlement_filters.as_slice(), 0);
    let in_paths = ProcessTracker::apply_path_filters(with_entitlements, config.path_filters.as_slice());
    ProcessTracker::apply_entitlement_filters(in_paths, config.entitlement_filters.as_slice())
}

} // verus!
