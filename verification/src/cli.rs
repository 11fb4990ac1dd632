//! Command-line decisions: which mode runs, and the configuration each mode gets.
//!
//! The command line itself is read outside the library; what the decisions need
//! of it arrives as an `Args` value. The polling interval is a floating-point
//! number there; the decisions only ask whether it is the default `1.0` and
//! whether it lies within 0.1 to 300 seconds, so `Args` carries those two facts.

use vstd::prelude::*;
use std::time::Duration;
use vstd::string::StringExecFns;
use crate::models::{PollingConfiguration, ScanConfig, ScanFilters};
use crate::numeric::{parse_u32, parse_u32_spec};
use crate::pattern_matcher::{FilterError, pattern_valid, validate_entitlement_filters};
use crate::text::{chars_of, contains, contains_chars, ends_with, push_str, slice_chars};

verus! {

broadcast use vstd::string::group_string_axioms;

/// The default scan target when no path is given.
pub const DEFAULT_SCAN_PATH: &'static str = "/Applications";

/// Daemon management subcommands.
#[derive(Debug, Clone, PartialEq, Eq)]
pub enum Commands {
    /// Install the daemon service with LaunchD.
    InstallDaemon { config: Option<String> },
    /// Uninstall the daemon service.
    UninstallDaemon,
    /// Show the daemon's status.
    DaemonStatus,
    /// Stop the running daemon.
    DaemonStop,
    /// Show the daemon's logs.
    Logs { follow: bool, since: Option<String>, format: String },
}

/// What the program does.
#[derive(Debug)]
pub enum ExecutionMode {
    Scan,
    Monitor,
    Daemon,
    Subcommand(Commands),
}

/// What the decisions need to know of the `--interval` value.
#[derive(Debug, Clone, Copy, PartialEq, Eq)]
pub struct IntervalFacts {
    /// The value is the default `1.0`.
    pub is_default: bool,
    /// The value lies within 0.1 to 300.0 seconds.
    pub in_range: bool,
}

/// The command line.
#[derive(Debug)]
pub struct Args {
    pub command: Option<Commands>,
    /// Paths to scan or to watch.
    pub path: Vec<String>,
    /// Entitlement filters.
    pub entitlement: Vec<String>,
    pub json: bool,
    pub quiet: bool,
    pub monitor: bool,
    /// The polling interval.
    pub interval: IntervalFacts,
    pub daemon: bool,
    /// Install as a LaunchD service (`--launchd`, only with `--daemon`).
    pub launchd: bool,
    /// Daemon configuration file.
    pub config: Option<String>,
}

/// Why the command line is refused.
#[derive(Debug, PartialEq, Eq)]
pub enum CliError {
    /// `--launchd` without `--daemon`.
    LaunchdRequiresDaemon,
    /// `--daemon` without `--monitor`.
    DaemonRequiresMonitor,
    /// `--interval` given without `--monitor` (mode selection).
    IntervalRequiresMonitorFlag,
    /// `--interval` given without `--monitor` (scan configuration).
    IntervalRequiresMonitor,
    /// The interval lies outside 0.1 to 300 seconds.
    InvalidInterval,
    /// The scan configuration was asked for in monitor mode.
    ScanConfigInMonitorMode,
    /// The monitor configuration was asked for without `--monitor`.
    MonitorFlagRequired,
    /// A path that does not exist.
    PathDoesNotExist(String),
    /// An ill-formed entitlement filter.
    InvalidEntitlementFilter(FilterError),
    /// A duration like `12h` whose number part is not a `u32`.
    InvalidTimeNumber(String),
    /// Neither a duration like `1h` nor a date and time.
    UnknownTimeFormat(String),
}

/// The message shown for each refusal.
pub open spec fn cli_error_text(e: CliError) -> Seq<char> {
    match e {
        CliError::LaunchdRequiresDaemon => "--launchd flag requires --daemon mode"@,
        CliError::DaemonRequiresMonitor => "--daemon requires --monitor flag"@,
        CliError::IntervalRequiresMonitorFlag => "--interval requires --monitor flag"@,
        CliError::IntervalRequiresMonitor => "--interval requires --monitor"@,
        CliError::InvalidInterval => "Invalid polling interval. Must be between 0.1 and 300 seconds"@,
        CliError::ScanConfigInMonitorMode => "Internal error: parse_args() called in monitor mode"@,
        CliError::MonitorFlagRequired => "--monitor flag is required for monitor mode"@,
        CliError::PathDoesNotExist(p) => "Path does not exist: "@ + p@,
        CliError::InvalidEntitlementFilter(FilterError::InvalidPattern { pattern, .. }) =>
            "Invalid entitlement filter: invalid range pattern in "@ + pattern@,
        CliError::InvalidTimeNumber(t) => "Invalid time format: "@ + t@,
        CliError::UnknownTimeFormat(t) => "Invalid time format: "@ + t@
            + ". Use formats like '1h', '30m', or '2023-01-01 10:00'"@,
    }
}

impl CliError {
    /// The message shown for the error (the interval's own message is made by the caller,
    /// who holds the value).
    pub fn message(&self) -> (s: String)
        ensures
            s@ == cli_error_text(*self),
    {
        let mut s = String::new();
        match self {
            CliError::LaunchdRequiresDaemon => push_str(&mut s, "--launchd flag requires --daemon mode"),
            CliError::DaemonRequiresMonitor => push_str(&mut s, "--daemon requires --monitor flag"),
            CliError::IntervalRequiresMonitorFlag => push_str(&mut s, "--interval requires --monitor flag"),
            CliError::IntervalRequiresMonitor => push_str(&mut s, "--interval requires --monitor"),
            CliError::InvalidInterval => push_str(
                &mut s,
                "Invalid polling interval. Must be between 0.1 and 300 seconds",
            ),
            CliError::ScanConfigInMonitorMode => push_str(
                &mut s,
                "Internal error: parse_args() called in monitor mode",
            ),
            CliError::MonitorFlagRequired => push_str(&mut s, "--monitor flag is required for monitor mode"),
            CliError::PathDoesNotExist(p) => {
                push_str(&mut s, "Path does not exist: ");
                push_str(&mut s, p.as_str());
            },
            CliError::InvalidEntitlementFilter(FilterError::InvalidPattern { pattern, .. }) => {
                push_str(&mut s, "Invalid entitlement filter: invalid range pattern in ");
                push_str(&mut s, pattern.as_str());
            },
            CliError::InvalidTimeNumber(t) => {
                push_str(&mut s, "Invalid time format: ");
                push_str(&mut s, t.as_str());
            },
            CliError::UnknownTimeFormat(t) => {
                push_str(&mut s, "Invalid time format: ");
                push_str(&mut s, t.as_str());
                push_str(&mut s, ". Use formats like '1h', '30m', or '2023-01-01 10:00'");
            },
        }
        s
    }
}

/// First position of a path that does not exist.
pub open spec fn first_missing(exists: Seq<bool>, i: int) -> Option<int>
    decreases exists.len() - i,
{
    if i < 0 || i >= exists.len() {
        None
    } else if !exists[i] {
        Some(i)
    } else {
        first_missing(exists, i + 1)
    }
}

pub proof fn lemma_first_missing(exists: Seq<bool>, i: int)
    requires
        0 <= i,
    ensures
        first_missing(exists, i) matches Some(k) ==> i <= k < exists.len() && !exists[k],
    decreases exists.len() - i,
{
    if i < exists.len() && exists[i] {
        lemma_first_missing(exists, i + 1);
    }
}

proof fn lemma_ends_with_char(h: Seq<char>, c: char)
    ensures
        ends_with(h, seq![c]) <==> (h.len() > 0 && h[h.len() - 1] == c),
{
    if h.len() > 0 {
        let last = h.subrange(h.len() - 1, h.len() as int);
        assert(last =~= seq![h[h.len() - 1]]);
        if last == seq![c] {
            assert(last[0] == c);
        }
        if h[h.len() - 1] == c {
            assert(last =~= seq![c]);
        }
    }
}

/// All entitlement filters are well-formed.
pub open spec fn filters_valid(filters: Seq<String>) -> bool {
    forall|k: int| 0 <= k < filters.len() ==> pattern_valid(#[trigger] filters[k]@)
}

/// Checks the flags against each other: `--launchd` needs `--daemon`, `--daemon` needs
/// `--monitor`, and so does an `--interval` other than the default; the interval must
/// lie within bounds (see `validate_args_compatibility_spec`).
pub fn validate_args_compatibility(args: &Args) -> (r: Result<(), CliError>)
    ensures
        r == (match validate_args_compatibility_spec(*args) {
            Some(e) => Err::<(), CliError>(e),
            None => Ok::<(), CliError>(()),
        }),
{
    if args.launchd && !args.daemon {
        return Err(CliError::LaunchdRequiresDaemon);
    }
    if args.daemon && !args.monitor {
        return Err(CliError::DaemonRequiresMonitor);
    }
    if !args.interval.is_default && !args.monitor {
        return Err(CliError::IntervalRequiresMonitorFlag);
    }
    if !args.interval.in_range {
        return Err(CliError::InvalidInterval);
    }
    Ok(())
}

/// The mode to run: a subcommand if one is given, else daemon (with `--daemon` and
/// `--monitor`), monitor (with `--monitor`) or scan.
pub fn get_execution_mode(args: Args) -> (r: Result<ExecutionMode, CliError>)
    ensures
        match validate_args_compatibility_spec(args) {
            Some(e) => r == Err::<ExecutionMode, CliError>(e),
            None => match args.command {
                Some(c) => r == Ok::<ExecutionMode, CliError>(ExecutionMode::Subcommand(c)),
                None => if args.daemon && args.monitor {
                    r == Ok::<ExecutionMode, CliError>(ExecutionMode::Daemon)
                } else if args.monitor {
                    r == Ok::<ExecutionMode, CliError>(ExecutionMode::Monitor)
                } else {
                    r == Ok::<ExecutionMode, CliError>(ExecutionMode::Scan)
                },
            },
        },
{
    match validate_args_compatibility(&args) {
        Err(e) => {
            return Err(e);
        },
        Ok(()) => {},
    }
    match args.command {
        Some(command) => Ok(ExecutionMode::Subcommand(command)),
        None => {
            if args.daemon && args.monitor {
                Ok(ExecutionMode::Daemon)
            } else if args.monitor {
                Ok(ExecutionMode::Monitor)
            } else {
                Ok(ExecutionMode::Scan)
            }
        },
    }
}

/// The error `validate_args_compatibility` reports, if any.
pub open spec fn validate_args_compatibility_spec(args: Args) -> Option<CliError> {
    if args.launchd && !args.daemon {
        Some(CliError::LaunchdRequiresDaemon)
    } else if args.daemon && !args.monitor {
        Some(CliError::DaemonRequiresMonitor)
    } else if !args.interval.is_default && !args.monitor {
        Some(CliError::IntervalRequiresMonitorFlag)
    } else if !args.interval.in_range {
        Some(CliError::InvalidInterval)
    } else {
        None
    }
}

/// With `--monitor`, every interval within bounds is accepted, the default one or
/// not (and `--launchd` is only refused without `--daemon`).
pub proof fn lemma_monitor_accepts_interval_in_range(args: Args)
    requires
        args.monitor,
        args.interval.in_range,
        !args.launchd || args.daemon,
    ensures
        validate_args_compatibility_spec(args) is None,
{
}

/// An interval is refused as needing `--monitor` only when `--monitor` is absent and
/// the interval is not the default one.
pub proof fn lemma_interval_needs_monitor_only_without_it(args: Args)
    ensures
        validate_args_compatibility_spec(args) == Some(CliError::IntervalRequiresMonitorFlag) ==> !args.monitor
            && !args.interval.is_default,
{
}

/// Whether monitor mode is asked for.
pub fn is_monitor_mode(args: &Args) -> (b: bool)
    ensures
        b == args.monitor,
{
    args.monitor
}

/// First path that does not exist.
fn find_missing(exists: &[bool]) -> (r: Option<usize>)
    ensures
        opt_index(r) == first_missing(exists@, 0),
{
    let mut i: usize = 0;
    while i < exists.len()
        invariant
            i <= exists@.len(),
            first_missing(exists@, i as int) == first_missing(exists@, 0),
        decreases exists@.len() - i,
    {
        if !exists[i] {
            return Some(i);
        }
        i = i + 1;
    }
    None
}

pub open spec fn opt_index(o: Option<usize>) -> Option<int> {
    match o {
        Some(k) => Some(k as int),
        None => None,
    }
}

/// The configuration of a static scan. `path_exists[i]` tells whether `args.path[i]`
/// exists. Refused: an `--interval` without `--monitor`, monitor mode itself, a path
/// that does not exist (the first one), an ill-formed entitlement filter (the first
/// one). Without paths, `/Applications` is scanned.
pub fn parse_args(args: Args, path_exists: &[bool]) -> (r: Result<ScanConfig, CliError>)
    requires
        path_exists@.len() == args.path@.len(),
    ensures
        !args.interval.is_default && !args.monitor ==> r == Err::<ScanConfig, CliError>(
            CliError::IntervalRequiresMonitor,
        ),
        (args.interval.is_default || args.monitor) && args.monitor ==> r == Err::<ScanConfig, CliError>(
            CliError::ScanConfigInMonitorMode,
        ),
        args.interval.is_default && !args.monitor ==> match first_missing(path_exists@, 0) {
            Some(i) => r matches Err(CliError::PathDoesNotExist(p)) && p@ == args.path@[i]@,
            None => if !filters_valid(args.entitlement@) {
                r matches Err(CliError::InvalidEntitlementFilter(_))
            } else {
                r matches Ok(cfg) && {
                    &&& (if args.path@.len() > 0 {
                        cfg.scan_paths@ == args.path@
                    } else {
                        cfg.scan_paths@.len() == 1 && cfg.scan_paths@[0]@ == DEFAULT_SCAN_PATH@
                    })
                    &&& cfg.filters.entitlements@ == args.entitlement@
                    &&& cfg.json_output == args.json
                    &&& cfg.quiet_mode == args.quiet
                }
            },
        },
        r matches Err(CliError::InvalidEntitlementFilter(FilterError::InvalidPattern { index, pattern })) ==> (
        index < args.entitlement@.len() && pattern@ == args.entitlement@[index as int]@ && !pattern_valid(
            pattern@,
        ) && forall|k: int| 0 <= k < index ==> pattern_valid(#[trigger] args.entitlement@[k]@)),
{
    if !args.interval.is_default && !args.monitor {
        return Err(CliError::IntervalRequiresMonitor);
    }
    if args.monitor {
        return Err(CliError::ScanConfigInMonitorMode);
    }
    let mut scan_paths: Vec<String> = Vec::new();
    if args.path.len() > 0 {
        proof {
            lemma_first_missing(path_exists@, 0);
        }
        match find_missing(path_exists) {
            Some(i) => {
                return Err(CliError::PathDoesNotExist(args.path[i].clone()));
            },
            None => {},
        }
        scan_paths = args.path;
    } else {
        scan_paths.push(String::from_str(DEFAULT_SCAN_PATH));
    }
    if args.entitlement.len() > 0 {
        match validate_entitlement_filters(args.entitlement.as_slice()) {
            Err(e) => {
                return Err(CliError::InvalidEntitlementFilter(e));
            },
            Ok(()) => {},
        }
    }
    Ok(
        ScanConfig {
            scan_paths,
            filters: ScanFilters { entitlements: args.entitlement },
            json_output: args.json,
            quiet_mode: args.quiet,
        },
    )
}

/// The configuration of monitor mode. `path_exists[i]` tells whether `args.path[i]`
/// exists; `interval` is the polling interval. Refused: no `--monitor`, an interval out
/// of bounds, an ill-formed entitlement filter (the first one), a path that does not
/// exist (the first one).
pub fn parse_monitor_config(args: Args, path_exists: &[bool], interval: Duration) -> (r: Result<
    PollingConfiguration,
    CliError,
>)
    requires
        path_exists@.len() == args.path@.len(),
    ensures
        !args.monitor ==> r == Err::<PollingConfiguration, CliError>(CliError::MonitorFlagRequired),
        args.monitor && !args.interval.in_range ==> r == Err::<PollingConfiguration, CliError>(
            CliError::InvalidInterval,
        ),
        args.monitor && args.interval.in_range ==> if !filters_valid(args.entitlement@) {
            r matches Err(CliError::InvalidEntitlementFilter(_))
        } else {
            match first_missing(path_exists@, 0) {
                Some(i) => r matches Err(CliError::PathDoesNotExist(p)) && p@ == args.path@[i]@,
                None => r matches Ok(cfg) && {
                    &&& cfg.interval == interval
                    &&& cfg.path_filters@ == args.path@
                    &&& cfg.entitlement_filters@ == args.entitlement@
                    &&& cfg.output_json == args.json
                    &&& cfg.quiet_mode == args.quiet
                },
            }
        },
        r matches Err(CliError::InvalidEntitlementFilter(FilterError::InvalidPattern { index, pattern })) ==> (
        index < args.entitlement@.len() && pattern@ == args.entitlement@[index as int]@ && !pattern_valid(
            pattern@,
        ) && forall|k: int| 0 <= k < index ==> pattern_valid(#[trigger] args.entitlement@[k]@)),
{
    if !args.monitor {
        return Err(CliError::MonitorFlagRequired);
    }
    if !args.interval.in_range {
        return Err(CliError::InvalidInterval);
    }
    if args.entitlement.len() > 0 {
        match validate_entitlement_filters(args.entitlement.as_slice()) {
            Err(e) => {
                return Err(CliError::InvalidEntitlementFilter(e));
            },
            Ok(()) => {},
        }
    }
    proof {
        lemma_first_missing(path_exists@, 0);
    }
    match find_missing(path_exists) {
        Some(i) => {
            return Err(CliError::PathDoesNotExist(args.path[i].clone()));
        },
        None => {},
    }
    Ok(
        PollingConfiguration {
            interval,
            path_filters: args.path,
            entitlement_filters: args.entitlement,
            output_json: args.json,
            quiet_mode: args.quiet,
        },
    )
}

/// A duration like `1h`, `30m` or `45s`: the number before the unit letter must be a `u32`.
pub open spec fn has_unit_suffix(t: Seq<char>) -> bool {
    ends_with(t, seq!['h']) || ends_with(t, seq!['m']) || ends_with(t, seq!['s'])
}

/// Accepts `<u32>h`, `<u32>m`, `<u32>s`, or anything holding both `-` and `:` (a date and time).
pub fn validate_time_format(time_str: &str) -> (r: Result<(), CliError>)
    ensures
        has_unit_suffix(time_str@) ==> (r is Ok <==> parse_u32_spec(time_str@.drop_last()) is Some),
        has_unit_suffix(time_str@) && r is Err ==> (r matches Err(CliError::InvalidTimeNumber(t)) && t@
            == time_str@),
        !has_unit_suffix(time_str@) ==> (r is Ok <==> contains(time_str@, seq!['-']) && contains(
            time_str@,
            seq![':'],
        )),
        !has_unit_suffix(time_str@) && r is Err ==> (r matches Err(CliError::UnknownTimeFormat(t)) && t@
            == time_str@),
{
    let t = chars_of(time_str);
    let n = t.len();
    let last_is_unit = n > 0 && (t[n - 1] == 'h' || t[n - 1] == 'm' || t[n - 1] == 's');
    assert(last_is_unit == has_unit_suffix(time_str@)) by {
        lemma_ends_with_char(time_str@, 'h');
        lemma_ends_with_char(time_str@, 'm');
        lemma_ends_with_char(time_str@, 's');
    }
    if last_is_unit {
        let number_part = slice_chars(t.as_slice(), 0, n - 1);
        assert(number_part@ =~= time_str@.drop_last());
        match parse_u32(number_part.as_slice()) {
            Some(_) => Ok(()),
            None => Err(CliError::InvalidTimeNumber(String::from_str(time_str))),
        }
    } else {
        let dash = ['-'];
        let colon = [':'];
        assert(dash@ == seq!['-'] && colon@ == seq![':']);
        if contains_chars(t.as_slice(), dash.as_slice()) && contains_chars(t.as_slice(), colon.as_slice()) {
            Ok(())
        } else {
            Err(CliError::UnknownTimeFormat(String::from_str(time_str)))
        }
    }
}

} // verus!
