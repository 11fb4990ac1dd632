use listent::config::MonitoringSettings;
use listent::daemon::{
    any_daemon_invocation, daemon_child_args, daemon_polling_configuration, initialize_daemon, processes_to_log,
    select_daemon_pids, stop_step, StopAction, StopEvent, StopReport,
};
use listent::models::MonitoredProcess;
use listent::unified_logging::init_logger;
use std::time::{Duration, SystemTime};

fn listing(entries: &[(u32, Option<&str>)]) -> Vec<(u32, Option<String>)> {
    entries.iter().map(|(p, c)| (*p, c.map(|s| s.to_string()))).collect()
}

#[test]
fn daemon_pids_skip_this_process_and_non_daemons() {
    let l = listing(&[
        (10, Some("/usr/local/bin/listent --daemon --monitor")),
        (11, Some("sudo listent --daemon --monitor")),
        (12, Some("/usr/local/bin/listent /Applications")),
        (13, None),
        (14, Some("listent --monitor --daemon -e x")),
        (15, Some("/usr/local/bin/listent --daemon --monitor")),
    ]);
    assert_eq!(select_daemon_pids(&l, 15), vec![10, 14]);
    assert_eq!(select_daemon_pids(&l, 1), vec![10, 14, 15]);
    assert!(select_daemon_pids(&[], 1).is_empty());
}

#[test]
fn status_looks_for_daemon_invocations() {
    let lines = vec![None, Some("listent /tmp".to_string()), Some("x --monitor --daemon".to_string())];
    assert!(any_daemon_invocation(&lines));
    assert!(!any_daemon_invocation(&lines[..2]));
    assert!(!any_daemon_invocation(&[]));
}

#[test]
fn child_is_started_in_daemon_mode() {
    assert_eq!(daemon_child_args(None), vec!["--daemon", "--monitor"]);
    assert_eq!(
        daemon_child_args(Some("/etc/listent.toml".to_string())),
        vec!["--daemon", "--monitor", "--config", "/etc/listent.toml"]
    );
}

#[test]
fn stopping_follows_the_service_then_the_processes() {
    assert_eq!(stop_step(StopEvent::Started { service_loaded: true }), StopAction::UnloadService);
    assert_eq!(stop_step(StopEvent::Started { service_loaded: false }), StopAction::FindDaemonProcesses);
    assert_eq!(stop_step(StopEvent::Unloaded { ok: true }), StopAction::Report(StopReport::Stopped));
    assert_eq!(stop_step(StopEvent::Unloaded { ok: false }), StopAction::FindDaemonProcesses);
    assert_eq!(stop_step(StopEvent::Found { daemon_pids: vec![] }), StopAction::Report(StopReport::NoneFound));
    assert_eq!(stop_step(StopEvent::Found { daemon_pids: vec![4, 5] }), StopAction::Terminate(vec![4, 5]));
    assert_eq!(
        stop_step(StopEvent::Terminated { daemon_pids: vec![4], all_sent: false }),
        StopAction::Report(StopReport::SomeFailed)
    );
    assert_eq!(
        stop_step(StopEvent::Terminated { daemon_pids: vec![4], all_sent: true }),
        StopAction::WaitAndCheck(vec![4])
    );
    assert_eq!(stop_step(StopEvent::Checked { still_running: vec![] }), StopAction::Report(StopReport::Stopped));
    assert_eq!(stop_step(StopEvent::Checked { still_running: vec![4] }), StopAction::ForceKill(vec![4]));
    assert_eq!(StopReport::NoneFound.message(), "❌ No listent daemon processes found");
    assert_eq!(StopReport::StoppedForced.message(), "✅ Daemon stopped (forced)");
    assert_eq!(StopReport::Stopped.message(), "✅ Daemon stopped successfully");
    assert_eq!(StopReport::SomeFailed.message(), "❌ Failed to stop some daemon processes");
}

#[test]
fn configuration_file_must_exist() {
    assert_eq!(initialize_daemon(None, false), Ok(()));
    assert_eq!(initialize_daemon(Some("/etc/l.toml"), true), Ok(()));
    assert_eq!(
        initialize_daemon(Some("/etc/l.toml"), false),
        Err("Configuration file not found: /etc/l.toml".to_string())
    );
}

#[test]
fn daemon_polls_with_its_filters() {
    let settings = MonitoringSettings {
        path_filters: vec!["/Applications".to_string()],
        entitlement_filters: vec!["*network*".to_string()],
    };
    let c = daemon_polling_configuration(&settings, Duration::from_millis(2500));
    assert_eq!(c.interval, Duration::from_millis(2500));
    assert_eq!(c.path_filters, vec!["/Applications"]);
    assert_eq!(c.entitlement_filters, vec!["*network*"]);
    assert!(!c.output_json && !c.quiet_mode);
}

#[test]
fn daemon_logs_processes_with_entitlements() {
    let p = |pid: u32, ents: &[&str]| MonitoredProcess {
        pid,
        name: "n".to_string(),
        executable_path: "/bin/n".to_string(),
        entitlements: ents.iter().map(|s| s.to_string()).collect(),
        discovery_timestamp: SystemTime::now(),
    };
    let kept = processes_to_log(vec![p(1, &[]), p(2, &["a"]), p(3, &[]), p(4, &["b", "c"])]);
    assert_eq!(kept.iter().map(|p| p.pid).collect::<Vec<_>>(), vec![2, 4]);
}

#[test]
fn unified_logging_needs_macos() {
    assert!(init_logger(true).is_ok());
    let e = init_logger(false).unwrap_err();
    assert_eq!(e.message(), "Unified Logging only available on macOS");
}
