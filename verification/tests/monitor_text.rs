use listent::models::{MonitoredProcess, PollingConfiguration};
use listent::monitor_output::{detection_lines, join_strings, monitoring_banner};
use std::time::{Duration, SystemTime};

fn config(paths: &[&str], ents: &[&str], quiet: bool) -> PollingConfiguration {
    PollingConfiguration {
        interval: Duration::from_secs(1),
        path_filters: paths.iter().map(|s| s.to_string()).collect(),
        entitlement_filters: ents.iter().map(|s| s.to_string()).collect(),
        output_json: false,
        quiet_mode: quiet,
    }
}

#[test]
fn joining() {
    let v = vec!["a".to_string(), "b".to_string(), "c".to_string()];
    assert_eq!(join_strings(&v, ", "), "a, b, c");
    assert_eq!(join_strings(&v[..1], ", "), "a");
    assert_eq!(join_strings(&[], ", "), "");
}

#[test]
fn banner() {
    assert_eq!(monitoring_banner(&config(&[], &[], true), "1.0"), None);
    assert_eq!(
        monitoring_banner(&config(&[], &[], false), "0.5").unwrap(),
        "Starting process monitoring (interval: 0.5s)...\nPress Ctrl+C to stop monitoring.\n\n"
    );
    assert_eq!(
        monitoring_banner(&config(&["/Applications", "/usr/bin"], &["*network*"], false), "1.0").unwrap(),
        "Starting process monitoring (interval: 1.0s)...\n\
         Monitoring /Applications, /usr/bin for processes\n\
         Monitoring for processes with entitlement: *network*\n\
         Press Ctrl+C to stop monitoring.\n\n"
    );
}

#[test]
fn detection() {
    let mut p = MonitoredProcess {
        pid: 4242,
        name: "Safari".to_string(),
        executable_path: "/Applications/Safari.app/Contents/MacOS/Safari".to_string(),
        entitlements: vec!["com.apple.security.network.client".to_string(), "com.apple.private.x".to_string()],
        discovery_timestamp: SystemTime::now(),
    };
    assert_eq!(
        detection_lines(&p, "2024-05-01T10:00:00.000000000Z"),
        "[2024-05-01T10:00:00.000000000Z] New process detected: Safari (PID: 4242)\n\
         \x20 Path: /Applications/Safari.app/Contents/MacOS/Safari\n\
         \x20 Entitlements: com.apple.security.network.client, com.apple.private.x\n\n"
    );
    p.entitlements.clear();
    assert!(detection_lines(&p, "t").ends_with("  Entitlements: (none)\n\n"));
}
