use listent::entitlements::{EntitlementMap, PlistValue};
use listent::models::{
    BinaryResult, EntitlementScanOutput, MonitoredProcess, PollingConfiguration, ProcessSnapshot,
    ScanFilters, ScanSummary,
};
use listent::monitor_core::{MonitoringConfig, ProcessMonitoringCore};
use listent::tracker::{apply_filters, ProcessTracker};
use std::collections::HashMap;
use std::time::{Duration, SystemTime};

fn process(pid: u32, name: &str, path: &str, ents: &[&str]) -> MonitoredProcess {
    MonitoredProcess {
        pid,
        name: name.to_string(),
        executable_path: path.to_string(),
        entitlements: ents.iter().map(|s| s.to_string()).collect(),
        discovery_timestamp: SystemTime::now(),
    }
}

fn config(paths: &[&str], ents: &[&str]) -> PollingConfiguration {
    PollingConfiguration {
        interval: Duration::from_secs(1),
        path_filters: paths.iter().map(|s| s.to_string()).collect(),
        entitlement_filters: ents.iter().map(|s| s.to_string()).collect(),
        output_json: false,
        quiet_mode: false,
    }
}

#[test]
fn test_binary_result_creation() {
    let mut entitlements = EntitlementMap::new();
    entitlements.insert(
        "com.apple.security.network.client".to_string(),
        PlistValue::Bool(true),
    );

    let result = BinaryResult {
        path: "/Applications/Test.app/Contents/MacOS/Test".to_string(),
        entitlements: entitlements.clone(),
        entitlement_count: entitlements.len(),
    };

    assert_eq!(result.path, "/Applications/Test.app/Contents/MacOS/Test");
    assert_eq!(result.entitlement_count, 1);
    assert_eq!(result.entitlements.len(), result.entitlement_count);
}

#[test]
fn test_scan_summary_creation() {
    let summary = ScanSummary {
        scanned: 100,
        matched: 25,
        skipped_unreadable: 5,
        duration_ms: 1500,
        interrupted: None,
    };

    assert_eq!(summary.scanned, 100);
    assert_eq!(summary.matched, 25);
    assert_eq!(summary.skipped_unreadable, 5);
    assert_eq!(summary.duration_ms, 1500);
    assert!(summary.interrupted.is_none());
}

#[test]
fn test_entitlement_scan_output_structure() {
    let mut entitlements = EntitlementMap::new();
    entitlements.insert("test.entitlement".to_string(), PlistValue::Bool(true));

    let result = BinaryResult {
        path: "/test/path".to_string(),
        entitlements,
        entitlement_count: 1,
    };

    let summary = ScanSummary {
        scanned: 1,
        matched: 1,
        skipped_unreadable: 0,
        duration_ms: 100,
        interrupted: None,
    };

    let output = EntitlementScanOutput { results: vec![result], summary };

    assert_eq!(output.results.len(), 1);
    assert_eq!(output.summary.scanned, 1);
    assert_eq!(output.summary.matched, 1);
}

#[test]
fn test_scan_config_defaults() {
    let filters = ScanFilters::default();
    assert!(filters.entitlements.is_empty());
}

#[test]
fn test_binary_result_entitlement_count_consistency() {
    let mut entitlements = EntitlementMap::new();
    entitlements.insert("ent1".to_string(), PlistValue::Bool(true));
    entitlements.insert("ent2".to_string(), PlistValue::Str("test".to_string()));

    let result = BinaryResult {
        path: "/test".to_string(),
        entitlements: entitlements.clone(),
        entitlement_count: entitlements.len(),
    };

    assert_eq!(result.entitlement_count, result.entitlements.len());
    assert_eq!(result.entitlement_count, 2);
}

#[test]
fn test_monitoring_config_from_polling_config() {
    let polling_config = PollingConfiguration {
        interval: Duration::from_secs(1),
        path_filters: vec!["/test".to_string()],
        entitlement_filters: vec!["test.*".to_string()],
        output_json: false,
        quiet_mode: false,
    };

    let monitoring_config = MonitoringConfig::from(&polling_config);
    assert_eq!(monitoring_config.path_filters.len(), 1);
    assert_eq!(monitoring_config.entitlement_filters.len(), 1);
}

#[test]
fn test_apply_filters_removes_processes_without_entitlements() {
    let processes = vec![
        process(1, "test1", "/bin/test1", &[]),
        process(2, "test2", "/bin/test2", &["com.apple.security.app-sandbox"]),
    ];
    let filtered = apply_filters(processes, &config(&[], &[]));

    assert_eq!(filtered.len(), 1);
    assert_eq!(filtered[0].pid, 2);
}

#[test]
fn test_apply_filters_with_path_filter() {
    let processes = vec![
        process(1, "test1", "/Applications/Test.app/test1", &["com.apple.security.app-sandbox"]),
        process(2, "test2", "/usr/bin/test2", &["com.apple.security.app-sandbox"]),
    ];
    let filtered = apply_filters(processes, &config(&["/Applications"], &[]));

    assert_eq!(filtered.len(), 1);
    assert_eq!(filtered[0].pid, 1);
}

#[test]
fn test_apply_filters_with_entitlement_filter() {
    let processes = vec![
        process(1, "test1", "/bin/test1", &["com.apple.security.app-sandbox"]),
        process(2, "test2", "/bin/test2", &["com.apple.security.network.client"]),
    ];
    let filtered = apply_filters(processes, &config(&[], &["com.apple.security.app-sandbox"]));

    assert_eq!(filtered.len(), 1);
    assert_eq!(filtered[0].pid, 1);
}

#[test]
fn test_apply_filters_combined_filters() {
    let processes = vec![
        process(1, "test1", "/Applications/Test.app/test1", &["com.apple.security.app-sandbox"]),
        process(2, "test2", "/Applications/Other.app/test2", &["com.apple.security.network.client"]),
        process(3, "test3", "/usr/bin/test3", &["com.apple.security.app-sandbox"]),
    ];
    let filtered = apply_filters(
        processes,
        &config(&["/Applications"], &["com.apple.security.app-sandbox"]),
    );

    assert_eq!(filtered.len(), 1);
    assert_eq!(filtered[0].pid, 1);
}

#[test]
fn test_apply_filters_empty_input() {
    let processes: Vec<MonitoredProcess> = vec![];
    let filtered = apply_filters(processes, &config(&[], &[]));
    assert!(filtered.is_empty());
}

#[test]
fn test_polling_configuration_interval_bounds() {
    let min_config = PollingConfiguration {
        interval: Duration::from_millis(100),
        path_filters: vec![],
        entitlement_filters: vec![],
        output_json: false,
        quiet_mode: false,
    };
    assert_eq!(min_config.interval.as_millis(), 100);

    let max_config = PollingConfiguration {
        interval: Duration::from_secs(300),
        path_filters: vec![],
        entitlement_filters: vec![],
        output_json: false,
        quiet_mode: false,
    };
    assert_eq!(max_config.interval.as_secs(), 300);
}

#[test]
fn path_filter_respects_component_boundaries() {
    let processes = vec![
        process(1, "a", "/ApplicationsX/a", &["e"]),
        process(2, "b", "/Applications", &["e"]),
        process(3, "c", "/Applications//Sub/c", &["e"]),
    ];
    let filtered = ProcessTracker::apply_path_filters(processes, &["/Applications/".to_string()]);
    let pids: Vec<u32> = filtered.iter().map(|p| p.pid).collect();
    assert_eq!(pids, vec![2, 3]);
}

#[test]
fn entitlement_filter_glob_keeps_order() {
    let processes = vec![
        process(5, "a", "/a", &["com.apple.security.network.client"]),
        process(6, "b", "/b", &["com.apple.private.x"]),
        process(7, "c", "/c", &["x", "com.apple.security.camera"]),
    ];
    let filtered =
        ProcessTracker::apply_entitlement_filters(processes, &["com.apple.security.*".to_string()]);
    let pids: Vec<u32> = filtered.iter().map(|p| p.pid).collect();
    assert_eq!(pids, vec![5, 7]);
}

fn snapshot(entries: &[(u32, &str)]) -> ProcessSnapshot {
    let mut processes = HashMap::new();
    for (pid, name) in entries {
        processes.insert(*pid, process(*pid, name, "/bin/x", &[]));
    }
    ProcessSnapshot { processes }
}

#[test]
fn tracker_first_snapshot_reports_nothing_then_new_ones() {
    let mut tracker = ProcessTracker::new();
    let first = tracker.detect_new_processes(snapshot(&[(1, "a"), (2, "b")]));
    assert!(first.is_empty());

    let second = tracker.detect_new_processes(snapshot(&[(1, "a"), (2, "b"), (3, "c")]));
    assert_eq!(second.len(), 1);
    assert_eq!(second[0].pid, 3);
    assert_eq!(second[0].name, "c");

    // The same snapshot again reports nothing.
    let third = tracker.detect_new_processes(snapshot(&[(1, "a"), (2, "b"), (3, "c")]));
    assert!(third.is_empty());
}

#[test]
fn new_processes_compares_pids_with_previous_keys() {
    let prev = snapshot(&[(1, "a")]);
    let cur = snapshot(&[(1, "a"), (4, "d"), (5, "e")]);
    let mut pids: Vec<u32> = cur.new_processes(&prev).iter().map(|p| p.pid).collect();
    pids.sort();
    assert_eq!(pids, vec![4, 5]);
}

#[test]
fn monitoring_core_keeps_filtered_processes_and_reports_new_ones() {
    let cfg = MonitoringConfig {
        path_filters: vec!["/usr/bin".to_string()],
        entitlement_filters: vec!["*network*".to_string()],
    };
    assert!(cfg.admits_path(&"/usr/bin/nc".to_string()));
    assert!(!cfg.admits_path(&"/usr/local/bin/nc".to_string()));
    let open = MonitoringConfig { path_filters: vec![], entitlement_filters: vec![] };
    assert!(open.admits_path(&"/anything".to_string()));

    let mut core = ProcessMonitoringCore::new();
    let first = vec![
        process(1, "nc", "/usr/bin/nc", &["com.apple.security.network.client"]),
        process(2, "ls", "/usr/bin/ls", &["other"]),
        process(3, "x", "/opt/x", &["com.apple.security.network.server"]),
    ];
    let kept = core.scan_processes(&cfg, first);
    let mut pids: Vec<u32> = kept.keys().cloned().collect();
    pids.sort();
    assert_eq!(pids, vec![1]);
    assert!(core.detect_new_processes(kept).is_empty());

    let second = vec![
        process(1, "nc", "/usr/bin/nc", &["com.apple.security.network.client"]),
        process(7, "curl", "/usr/bin/curl", &["com.apple.security.network.client"]),
        process(8, "git", "/usr/bin/git", &[]),
    ];
    let new = core.scan_and_detect_new(&cfg, second);
    assert_eq!(new.len(), 1);
    assert_eq!(new[0].pid, 7);

    // A later candidate with the same process id replaces the earlier one.
    let dup = vec![process(9, "a", "/usr/bin/a", &["net.network"]), process(9, "b", "/usr/bin/b", &["network"])];
    let kept = ProcessMonitoringCore::default().scan_processes(&cfg, dup);
    assert_eq!(kept.len(), 1);
    assert_eq!(kept[&9].name, "b");
}

#[test]
fn test_monitoring_core_creation() {
    let mut core = ProcessMonitoringCore::new();
    // A new engine has seen no poll: its first poll reports nothing.
    let cfg = MonitoringConfig { path_filters: vec![], entitlement_filters: vec![] };
    let first = core.scan_and_detect_new(&cfg, vec![process(1, "a", "/a", &["x"])]);
    assert!(first.is_empty());
}
