use listent::cli::{
    get_execution_mode, is_monitor_mode, parse_args, parse_monitor_config, validate_time_format,
    Args, CliError, Commands, ExecutionMode, IntervalFacts,
};
use listent::pattern_matcher::FilterError;
use std::time::Duration;

fn args() -> Args {
    Args {
        command: None,
        path: vec![],
        entitlement: vec![],
        json: false,
        quiet: false,
        monitor: false,
        interval: IntervalFacts { is_default: true, in_range: true },
        daemon: false,
        launchd: false,
        config: None,
    }
}

#[test]
fn mode_selection() {
    assert!(matches!(get_execution_mode(args()), Ok(ExecutionMode::Scan)));
    let mut a = args();
    a.monitor = true;
    assert!(matches!(get_execution_mode(a), Ok(ExecutionMode::Monitor)));
    let mut a = args();
    a.monitor = true;
    a.daemon = true;
    assert!(matches!(get_execution_mode(a), Ok(ExecutionMode::Daemon)));
    let mut a = args();
    a.command = Some(Commands::DaemonStatus);
    assert!(matches!(get_execution_mode(a), Ok(ExecutionMode::Subcommand(Commands::DaemonStatus))));
}

#[test]
fn mode_selection_errors() {
    let mut a = args();
    a.daemon = true;
    assert!(matches!(get_execution_mode(a), Err(CliError::DaemonRequiresMonitor)));
    let mut a = args();
    a.interval.is_default = false;
    assert!(matches!(get_execution_mode(a), Err(CliError::IntervalRequiresMonitorFlag)));
    let mut a = args();
    a.monitor = true;
    a.interval = IntervalFacts { is_default: false, in_range: false };
    assert!(matches!(get_execution_mode(a), Err(CliError::InvalidInterval)));
    assert_eq!(CliError::DaemonRequiresMonitor.message(), "--daemon requires --monitor flag");
}

#[test]
fn scan_config_defaults_to_applications() {
    let cfg = parse_args(args(), &[]).unwrap();
    assert_eq!(cfg.scan_paths, vec!["/Applications".to_string()]);
    assert!(cfg.filters.entitlements.is_empty());
}

#[test]
fn scan_config_checks_paths_and_filters() {
    let mut a = args();
    a.path = vec!["/usr/bin".to_string(), "/nonexistent".to_string(), "/also/missing".to_string()];
    let r = parse_args(a, &[true, false, false]);
    assert_eq!(r.unwrap_err(), CliError::PathDoesNotExist("/nonexistent".to_string()));

    let mut a = args();
    a.path = vec!["/usr/bin".to_string()];
    a.entitlement = vec!["com.apple.[".to_string()];
    a.json = true;
    let r = parse_args(a, &[true]);
    assert_eq!(
        r.unwrap_err(),
        CliError::InvalidEntitlementFilter(FilterError::InvalidPattern {
            index: 0,
            pattern: "com.apple.[".to_string()
        })
    );

    let mut a = args();
    a.path = vec!["/usr/bin".to_string()];
    a.entitlement = vec!["*network*".to_string()];
    a.quiet = true;
    let cfg = parse_args(a, &[true]).unwrap();
    assert_eq!(cfg.scan_paths, vec!["/usr/bin".to_string()]);
    assert_eq!(cfg.filters.entitlements, vec!["*network*".to_string()]);
    assert!(cfg.quiet_mode);
    assert!(!cfg.json_output);
}

#[test]
fn scan_config_refuses_monitor_flags() {
    let mut a = args();
    a.interval.is_default = false;
    assert_eq!(parse_args(a, &[]).unwrap_err(), CliError::IntervalRequiresMonitor);
    let mut a = args();
    a.monitor = true;
    assert_eq!(parse_args(a, &[]).unwrap_err(), CliError::ScanConfigInMonitorMode);
    assert_eq!(CliError::IntervalRequiresMonitor.message(), "--interval requires --monitor");
}

#[test]
fn monitor_config() {
    assert_eq!(
        parse_monitor_config(args(), &[], Duration::from_secs(1)).unwrap_err(),
        CliError::MonitorFlagRequired
    );
    let mut a = args();
    a.monitor = true;
    a.interval = IntervalFacts { is_default: false, in_range: false };
    assert_eq!(
        parse_monitor_config(a, &[], Duration::from_millis(50)).unwrap_err(),
        CliError::InvalidInterval
    );
    let mut a = args();
    a.monitor = true;
    a.path = vec!["/nonexistent".to_string()];
    assert_eq!(
        parse_monitor_config(a, &[false], Duration::from_secs(1)).unwrap_err(),
        CliError::PathDoesNotExist("/nonexistent".to_string())
    );
    let mut a = args();
    a.monitor = true;
    a.path = vec!["/Applications".to_string()];
    a.entitlement = vec!["com.apple.security.*".to_string()];
    a.json = true;
    let cfg = parse_monitor_config(a, &[true], Duration::from_millis(500)).unwrap();
    assert_eq!(cfg.interval, Duration::from_millis(500));
    assert_eq!(cfg.path_filters, vec!["/Applications".to_string()]);
    assert_eq!(cfg.entitlement_filters, vec!["com.apple.security.*".to_string()]);
    assert!(cfg.output_json);
}

#[test]
fn monitor_flag_query() {
    let mut a = args();
    assert!(!is_monitor_mode(&a));
    a.monitor = true;
    assert!(is_monitor_mode(&a));
}

#[test]
fn time_formats() {
    assert_eq!(validate_time_format("1h"), Ok(()));
    assert_eq!(validate_time_format("30m"), Ok(()));
    assert_eq!(validate_time_format("45s"), Ok(()));
    assert_eq!(validate_time_format("+5m"), Ok(()));
    assert_eq!(validate_time_format("2023-01-01 10:00"), Ok(()));
    assert_eq!(validate_time_format("h"), Err(CliError::InvalidTimeNumber("h".to_string())));
    assert_eq!(validate_time_format("-5m"), Err(CliError::InvalidTimeNumber("-5m".to_string())));
    assert_eq!(
        validate_time_format("99999999999s"),
        Err(CliError::InvalidTimeNumber("99999999999s".to_string()))
    );
    assert_eq!(validate_time_format("yesterday"), Err(CliError::UnknownTimeFormat("yesterday".to_string())));
    assert_eq!(validate_time_format("2023-01-01"), Err(CliError::UnknownTimeFormat("2023-01-01".to_string())));
    assert_eq!(
        CliError::UnknownTimeFormat("x".to_string()).message(),
        "Invalid time format: x. Use formats like '1h', '30m', or '2023-01-01 10:00'"
    );
    assert_eq!(CliError::InvalidTimeNumber("xh".to_string()).message(), "Invalid time format: xh");
}

#[test]
fn launchd_needs_daemon_mode() {
    let mut a = args();
    a.launchd = true;
    let e = get_execution_mode(a).unwrap_err();
    assert_eq!(e, CliError::LaunchdRequiresDaemon);
    assert_eq!(e.message(), "--launchd flag requires --daemon mode");
    let mut a = args();
    a.launchd = true;
    a.daemon = true;
    a.monitor = true;
    assert!(matches!(get_execution_mode(a), Ok(ExecutionMode::Daemon)));
}
