//! Decisions of the daemon's management commands.

use vstd::prelude::*;
use vstd::string::StringExecFns;
use std::time::Duration;
use crate::config::MonitoringSettings;
use crate::models::{MonitoredProcess, PollingConfiguration, copy_strings, processes_view};
use crate::numeric::{parse_u32, parse_u32_spec};
use crate::tracker::{filter_procs, has_entitlements, retain_processes};
use crate::pattern_matcher::strings_view;
use crate::text::{chars_of, contains, push_str, slice_chars, str_contains, trim, trim_chars};

verus! {

broadcast use vstd::string::group_string_axioms;

/// The process id a line holds: the line, trimmed, read as a `u32`.
pub open spec fn pid_of_line(line: Seq<char>) -> Seq<u32> {
    match parse_u32_spec(trim(line)) {
        Some(p) => seq![p],
        None => Seq::empty(),
    }
}

/// The process ids in `b[i..]`, where `cur` is the part of the current line read so far.
pub open spec fn pids_from(b: Seq<char>, i: int, cur: Seq<char>) -> Seq<u32>
    decreases b.len() - i,
{
    if i < 0 || i >= b.len() {
        pid_of_line(cur)
    } else if b[i] == '\n' {
        pid_of_line(cur) + pids_from(b, i + 1, Seq::empty())
    } else {
        pids_from(b, i + 1, cur.push(b[i]))
    }
}

/// The process ids listed one per line in `pgrep` output: every line that, trimmed,
/// is a `u32`, in order. (Lines are split at each newline; the empty text after a
/// final newline, and a `\r` before a newline, which `str::lines` would drop, change
/// nothing, since an empty text is no number and trimming removes the `\r`.)
pub open spec fn pids_spec(s: Seq<char>) -> Seq<u32> {
    pids_from(s, 0, Seq::empty())
}

fn pid_of(seg: &[char]) -> (r: Option<u32>)
    ensures
        match r {
            Some(p) => pid_of_line(seg@) == seq![p],
            None => pid_of_line(seg@) == Seq::<u32>::empty(),
        },
{
    let t = trim_chars(seg);
    parse_u32(t.as_slice())
}

/// The process ids listed in `pgrep` output (see `pids_spec`).
pub fn parse_pid_lines(output: &str) -> (r: Vec<u32>)
    ensures
        r@ == pids_spec(output@),
{
    let b = chars_of(output);
    let mut r: Vec<u32> = Vec::new();
    let mut start: usize = 0;
    let mut i: usize = 0;
    assert(b@.subrange(0, 0) =~= Seq::<char>::empty());
    assert(r@ =~= Seq::<u32>::empty());
    assert(r@ + pids_spec(output@) =~= pids_spec(output@));
    while i < b.len()
        invariant
            b@ == output@,
            start <= i <= b@.len(),
            r@ + pids_from(output@, i as int, b@.subrange(start as int, i as int)) == pids_spec(output@),
        decreases b@.len() - i,
    {
        if b[i] == '\n' {
            let seg = slice_chars(b.as_slice(), start, i);
            let ghost before = r@;
            match pid_of(seg.as_slice()) {
                Some(p) => r.push(p),
                None => {},
            }
            assert(r@ =~= before + pid_of_line(seg@));
            start = i + 1;
            assert(b@.subrange(start as int, start as int) =~= Seq::<char>::empty());
        } else {
            let ghost old_seg = b@.subrange(start as int, i as int);
            assert(b@.subrange(start as int, i + 1) =~= old_seg.push(b@[i as int]));
        }
        i = i + 1;
    }
    let seg = slice_chars(b.as_slice(), start, i);
    let ghost before = r@;
    match pid_of(seg.as_slice()) {
        Some(p) => r.push(p),
        None => {},
    }
    assert(r@ =~= before + pid_of_line(seg@));
    r
}

/// A command line of a running daemon: it names `listent`, `--daemon` and `--monitor`,
/// and is not a `sudo` invocation.
pub open spec fn is_daemon_command_line_spec(cmd: Seq<char>) -> bool {
    contains(cmd, "listent"@) && contains(cmd, "--daemon"@) && contains(cmd, "--monitor"@) && !contains(
        cmd,
        "sudo"@,
    )
}

/// Whether `cmd` (from `ps -o args=`) is the command line of a running daemon.
pub fn is_daemon_command_line(cmd: &str) -> (b: bool)
    ensures
        b == is_daemon_command_line_spec(cmd@),
{
    str_contains(cmd, "listent") && str_contains(cmd, "--daemon") && str_contains(cmd, "--monitor")
        && !str_contains(cmd, "sudo")
}

/// Whether `cmd` runs in daemon mode (`--daemon` and `--monitor`); the status report
/// counts these.
pub fn is_daemon_invocation(cmd: &str) -> (b: bool)
    ensures
        b == (contains(cmd@, "--daemon"@) && contains(cmd@, "--monitor"@)),
{
    str_contains(cmd, "--daemon") && str_contains(cmd, "--monitor")
}

/// The daemon processes of a `pgrep` listing: each entry is a process id with its
/// command line (`None` when it could not be read). This process (`current_pid`) is
/// left out, and so is every process whose command line is not a daemon's.
pub open spec fn daemon_pids_spec(listing: Seq<(u32, Option<String>)>, current_pid: u32) -> Seq<u32>
    decreases listing.len(),
{
    if listing.len() == 0 {
        Seq::empty()
    } else {
        let rest = daemon_pids_spec(listing.drop_last(), current_pid);
        let (pid, cmd) = listing.last();
        if pid != current_pid && (cmd matches Some(c) && is_daemon_command_line_spec(c@)) {
            rest.push(pid)
        } else {
            rest
        }
    }
}

/// The daemon processes of a listing (see `daemon_pids_spec`), in order. A daemon is
/// already running exactly when this is not empty.
pub fn select_daemon_pids(listing: &[(u32, Option<String>)], current_pid: u32) -> (r: Vec<u32>)
    ensures
        r@ == daemon_pids_spec(listing@, current_pid),
{
    let mut r: Vec<u32> = Vec::new();
    let mut i: usize = 0;
    while i < listing.len()
        invariant
            i <= listing@.len(),
            r@ == daemon_pids_spec(listing@.take(i as int), current_pid),
        decreases listing@.len() - i,
    {
        assert(listing@.take(i + 1).drop_last() =~= listing@.take(i as int));
        let pid = listing[i].0;
        let is_daemon = match &listing[i].1 {
            Some(c) => is_daemon_command_line(c.as_str()),
            None => false,
        };
        if pid != current_pid && is_daemon {
            r.push(pid);
        }
        i = i + 1;
    }
    assert(listing@.take(listing@.len() as int) =~= listing@);
    r
}

/// The daemon processes selected from a listing are never this process, and each
/// has a daemon's command line in the listing.
pub proof fn lemma_daemon_pids_exclude_current(listing: Seq<(u32, Option<String>)>, current_pid: u32)
    ensures
        forall|i: int| 0 <= i < daemon_pids_spec(listing, current_pid).len() ==> {
            let pid = #[trigger] daemon_pids_spec(listing, current_pid)[i];
            &&& pid != current_pid
            &&& exists|j: int| 0 <= j < listing.len() && listing[j].0 == pid && (listing[j].1 matches Some(c)
                && is_daemon_command_line_spec(c@))
        },
    decreases listing.len(),
{
    if listing.len() > 0 {
        let d = listing.drop_last();
        lemma_daemon_pids_exclude_current(d, current_pid);
        let rest = daemon_pids_spec(d, current_pid);
        let out = daemon_pids_spec(listing, current_pid);
        assert forall|i: int| 0 <= i < out.len() implies {
            let pid = #[trigger] out[i];
            &&& pid != current_pid
            &&& exists|j: int| 0 <= j < listing.len() && listing[j].0 == pid && (listing[j].1 matches Some(c)
                && is_daemon_command_line_spec(c@))
        } by {
            if i < rest.len() {
                assert(out[i] == rest[i]);
                let j = choose|j: int| 0 <= j < d.len() && d[j].0 == rest[i] && (d[j].1 matches Some(c)
                    && is_daemon_command_line_spec(c@));
                assert(listing[j] == d[j]);
            } else {
                let n = listing.len() - 1;
                assert(listing[n] == listing.last());
            }
        }
    }
}

/// Whether one of the command lines (`None`: unreadable) runs in daemon mode; the
/// status report looks for such a process.
pub fn any_daemon_invocation(command_lines: &[Option<String>]) -> (b: bool)
    ensures
        b == exists|i: int|
            0 <= i < command_lines@.len() && (#[trigger] command_lines@[i] matches Some(c) && contains(
                c@,
                "--daemon"@,
            ) && contains(c@, "--monitor"@)),
{
    let mut i: usize = 0;
    while i < command_lines.len()
        invariant
            i <= command_lines@.len(),
            forall|j: int|
                0 <= j < i ==> !(#[trigger] command_lines@[j] matches Some(c) && contains(c@, "--daemon"@)
                    && contains(c@, "--monitor"@)),
        decreases command_lines@.len() - i,
    {
        match &command_lines[i] {
            Some(c) => {
                if is_daemon_invocation(c.as_str()) {
                    return true;
                }
            },
            None => {},
        }
        i = i + 1;
    }
    false
}

/// The arguments a detached daemon child is started with.
pub open spec fn child_args_spec(config_path: Option<String>) -> Seq<Seq<char>> {
    match config_path {
        Some(p) => seq!["--daemon"@, "--monitor"@, "--config"@, p@],
        None => seq!["--daemon"@, "--monitor"@],
    }
}

/// The arguments of the detached daemon child: `--daemon --monitor`, and
/// `--config <path>` when a configuration file was given.
pub fn daemon_child_args(config_path: Option<String>) -> (r: Vec<String>)
    ensures
        strings_view(r@) == child_args_spec(config_path),
{
    let ghost cp = config_path;
    let mut r: Vec<String> = Vec::new();
    r.push(String::from_str("--daemon"));
    r.push(String::from_str("--monitor"));
    match config_path {
        Some(p) => {
            r.push(String::from_str("--config"));
            r.push(p);
        },
        None => {},
    }
    assert(strings_view(r@) =~= child_args_spec(cp));
    r
}

/// How stopping the daemon ended.
#[derive(Debug, Clone, Copy, PartialEq, Eq, Structural)]
pub enum StopReport {
    /// The daemon stopped (the LaunchD service was unloaded, or the processes ended).
    Stopped,
    /// Processes that outlived the grace period were killed.
    StoppedForced,
    /// No daemon process was found.
    NoneFound,
    /// A termination signal could not be sent.
    SomeFailed,
}

impl StopReport {
    /// The line the stop command prints.
    pub fn message(&self) -> (s: &'static str)
        ensures
            s@ == (match self {
                StopReport::Stopped => "\u{2705} Daemon stopped successfully"@,
                StopReport::StoppedForced => "\u{2705} Daemon stopped (forced)"@,
                StopReport::NoneFound => "\u{274c} No listent daemon processes found"@,
                StopReport::SomeFailed => "\u{274c} Failed to stop some daemon processes"@,
            }),
    {
        match self {
            StopReport::Stopped => "\u{2705} Daemon stopped successfully",
            StopReport::StoppedForced => "\u{2705} Daemon stopped (forced)",
            StopReport::NoneFound => "\u{274c} No listent daemon processes found",
            StopReport::SomeFailed => "\u{274c} Failed to stop some daemon processes",
        }
    }
}

/// What happened in the last step of stopping the daemon.
#[derive(Debug, Clone, PartialEq, Eq)]
pub enum StopEvent {
    /// The stop command starts; whether the LaunchD service is loaded.
    Started { service_loaded: bool },
    /// `launchctl` was asked to unload the service; whether it did.
    Unloaded { ok: bool },
    /// The daemon processes that were found (see `select_daemon_pids`).
    Found { daemon_pids: Vec<u32> },
    /// A termination signal was sent to each daemon process; whether every one was sent.
    Terminated { daemon_pids: Vec<u32>, all_sent: bool },
    /// After the grace period, the daemon processes that are still alive.
    Checked { still_running: Vec<u32> },
}

/// What to do next to stop the daemon.
#[derive(Debug, Clone, PartialEq, Eq)]
pub enum StopAction {
    /// Unload the LaunchD service (a killed process would be restarted by it).
    UnloadService,
    /// Look for daemon processes.
    FindDaemonProcesses,
    /// Send a termination signal to each of these processes.
    Terminate(Vec<u32>),
    /// Wait for the grace period, then check which of these processes are alive.
    WaitAndCheck(Vec<u32>),
    /// Kill these processes; the daemon is then stopped by force.
    ForceKill(Vec<u32>),
    /// Stop with this report.
    Report(StopReport),
}

/// The next step of stopping the daemon: a loaded LaunchD service is unloaded;
/// when there is none, or unloading fails, the daemon processes are found,
/// signalled to terminate, and killed if they outlive the grace period.
pub fn stop_step(event: StopEvent) -> (a: StopAction)
    ensures
        a == (match event {
            StopEvent::Started { service_loaded } => if service_loaded {
                StopAction::UnloadService
            } else {
                StopAction::FindDaemonProcesses
            },
            StopEvent::Unloaded { ok } => if ok {
                StopAction::Report(StopReport::Stopped)
            } else {
                StopAction::FindDaemonProcesses
            },
            StopEvent::Found { daemon_pids } => if daemon_pids@.len() == 0 {
                StopAction::Report(StopReport::NoneFound)
            } else {
                StopAction::Terminate(daemon_pids)
            },
            StopEvent::Terminated { daemon_pids, all_sent } => if all_sent {
                StopAction::WaitAndCheck(daemon_pids)
            } else {
                StopAction::Report(StopReport::SomeFailed)
            },
            StopEvent::Checked { still_running } => if still_running@.len() == 0 {
                StopAction::Report(StopReport::Stopped)
            } else {
                StopAction::ForceKill(still_running)
            },
        }),
{
    match event {
        StopEvent::Started { service_loaded } => {
            if service_loaded {
                StopAction::UnloadService
            } else {
                StopAction::FindDaemonProcesses
            }
        },
        StopEvent::Unloaded { ok } => {
            if ok {
                StopAction::Report(StopReport::Stopped)
            } else {
                StopAction::FindDaemonProcesses
            }
        },
        StopEvent::Found { daemon_pids } => {
            if daemon_pids.len() == 0 {
                StopAction::Report(StopReport::NoneFound)
            } else {
                StopAction::Terminate(daemon_pids)
            }
        },
        StopEvent::Terminated { daemon_pids, all_sent } => {
            if all_sent {
                StopAction::WaitAndCheck(daemon_pids)
            } else {
                StopAction::Report(StopReport::SomeFailed)
            }
        },
        StopEvent::Checked { still_running } => {
            if still_running.len() == 0 {
                StopAction::Report(StopReport::Stopped)
            } else {
                StopAction::ForceKill(still_running)
            }
        },
    }
}

/// Checks the daemon's configuration file before the daemon is set up: a file that
/// was named must exist (`config_exists`). Loading it and creating the daemon's
/// directories is left to the caller.
pub fn initialize_daemon(config_path: Option<&str>, config_exists: bool) -> (r: Result<(), String>)
    ensures
        (config_path is None || config_exists) ==> r is Ok,
        config_path matches Some(p) ==> (!config_exists ==> (r matches Err(m) && m@
            == "Configuration file not found: "@ + p@)),
{
    match config_path {
        Some(p) => {
            if !config_exists {
                let mut m = String::new();
                push_str(&mut m, "Configuration file not found: ");
                push_str(&mut m, p);
                return Err(m);
            }
            Ok(())
        },
        None => Ok(()),
    }
}

/// The polling configuration of one daemon poll: the daemon's filters and
/// `interval`, no JSON and no quiet mode (the daemon logs instead of printing).
pub fn daemon_polling_configuration(settings: &MonitoringSettings, interval: Duration) -> (c: PollingConfiguration)
    ensures
        c.interval == interval,
        c.path_filters@ == settings.path_filters@,
        c.entitlement_filters@ == settings.entitlement_filters@,
        !c.output_json,
        !c.quiet_mode,
{
    PollingConfiguration {
        interval,
        path_filters: copy_strings(&settings.path_filters),
        entitlement_filters: copy_strings(&settings.entitlement_filters),
        output_json: false,
        quiet_mode: false,
    }
}

/// The new processes the daemon logs: those with at least one entitlement, in order.
pub fn processes_to_log(new_processes: Vec<MonitoredProcess>) -> (r: Vec<MonitoredProcess>)
    ensures
        processes_view(r@) == filter_procs(processes_view(new_processes@), has_entitlements()),
{
    let none: Vec<String> = Vec::new();
    retain_processes(new_processes, none.as_slice(), 0)
}

/// What the status report advises.
#[derive(Debug, Clone, Copy, PartialEq, Eq, Structural)]
pub enum StatusAdvice {
    /// The daemon runs as a LaunchD service.
    RunningAsService,
    /// The daemon runs, but not as a LaunchD service.
    RunningDirectly,
    /// A LaunchD service is installed but no daemon process runs.
    ServiceWithoutProcess,
    /// Nothing runs.
    NotRunning,
    /// A daemon process runs but its LaunchD service is stopped.
    Inconsistent,
}

/// The advice of the status report. `service_running` is `None` when no LaunchD
/// service is installed, else whether the service is running.
pub fn status_advice(daemon_running: bool, service_running: Option<bool>) -> (a: StatusAdvice)
    ensures
        a == (match (daemon_running, service_running) {
            (true, Some(true)) => StatusAdvice::RunningAsService,
            (true, None) => StatusAdvice::RunningDirectly,
            (false, Some(_)) => StatusAdvice::ServiceWithoutProcess,
            (false, None) => StatusAdvice::NotRunning,
            (true, Some(false)) => StatusAdvice::Inconsistent,
        }),
{
    match (daemon_running, service_running) {
        (true, Some(true)) => StatusAdvice::RunningAsService,
        (true, None) => StatusAdvice::RunningDirectly,
        (false, Some(_)) => StatusAdvice::ServiceWithoutProcess,
        (false, None) => StatusAdvice::NotRunning,
        (true, Some(false)) => StatusAdvice::Inconsistent,
    }
}

/// How a daemon start proceeds.
#[derive(Debug, Clone, Copy, PartialEq, Eq, Structural)]
pub enum LaunchMode {
    /// Managed by LaunchD, or already the detached child: run the daemon here.
    RunHere,
    /// Started by hand: start a detached child and return.
    SpawnChild,
}

/// Under LaunchD (`XPC_SERVICE_NAME` set) or as the detached child
/// (`LISTENT_DAEMON_CHILD` set) the daemon runs in this process; otherwise a child is
/// started.
pub fn daemon_launch_mode(under_launchd: bool, is_daemon_child: bool) -> (m: LaunchMode)
    ensures
        m == (if under_launchd || is_daemon_child { LaunchMode::RunHere } else { LaunchMode::SpawnChild }),
{
    if under_launchd || is_daemon_child {
        LaunchMode::RunHere
    } else {
        LaunchMode::SpawnChild
    }
}

/// Stops the daemon: it is stopped by a signal from the stop command, so nothing is
/// left to do here.
pub fn stop_daemon() -> (r: Result<(), String>)
    ensures
        r is Ok,
{
    Ok(())
}

} // verus!
