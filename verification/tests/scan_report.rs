use listent::entitlements::{EntitlementMap, PlistValue};
use listent::models::{BinaryResult, EntitlementScanOutput, ScanSummary};
use listent::output::format_human;
use listent::scan::{scan_output, ScanTally};

fn summary(scanned: usize, matched: usize, skipped: usize, ms: u64, interrupted: Option<bool>) -> ScanSummary {
    ScanSummary { scanned, matched, skipped_unreadable: skipped, duration_ms: ms, interrupted }
}

fn result(path: &str, entries: Vec<(&str, PlistValue)>) -> BinaryResult {
    let n = entries.len();
    BinaryResult {
        path: path.to_string(),
        entitlements: EntitlementMap { entries: entries.into_iter().map(|(k, v)| (k.to_string(), v)).collect() },
        entitlement_count: n,
    }
}

#[test]
fn report_without_results() {
    let out = EntitlementScanOutput { results: vec![], summary: summary(3, 0, 0, 12, None) };
    assert_eq!(
        format_human(&out, "0.01"),
        "No binaries found with entitlements.\n\
         ---\nScan Summary:\n  Scanned: 3 files\n  Matched: 0 files\n  Duration: 12ms\n"
    );
}

#[test]
fn report_lists_entitlements_in_key_order() {
    let out = EntitlementScanOutput {
        results: vec![
            result("/usr/bin/security", vec![("com.apple.private.platformsso.security", PlistValue::Bool(true))]),
            result(
                "/usr/bin/nc",
                vec![
                    ("com.apple.security.network.server", PlistValue::Bool(true)),
                    ("com.apple.security.network.client", PlistValue::Bool(false)),
                    ("a.level", PlistValue::Int(-3)),
                    ("Z.name", PlistValue::Str("x y".to_string())),
                ],
            ),
        ],
        summary: summary(156, 2, 4, 2500, Some(true)),
    };
    let expected = "Found 2 binaries with 5 total entitlements:\n\n\
/usr/bin/security:\n  com.apple.private.platformsso.security: true\n\n\
/usr/bin/nc:\n  Z.name: x y\n  a.level: -3\n  com.apple.security.network.client: false\n  com.apple.security.network.server: true\n\n\
---\nScan Summary:\n  Scanned: 156 files\n  Matched: 2 files\n  Skipped (unreadable): 4 files\n  Duration: 2.50s\n  Status: Interrupted by user\n";
    assert_eq!(format_human(&out, "2.50"), expected);
}

#[test]
fn report_shows_milliseconds_below_one_second() {
    let out = EntitlementScanOutput { results: vec![], summary: summary(0, 0, 0, 999, Some(false)) };
    let text = format_human(&out, "0.99");
    assert!(text.ends_with("  Duration: 999ms\n"));
    let out = EntitlementScanOutput { results: vec![], summary: summary(0, 0, 0, 1000, None) };
    let text = format_human(&out, "1.00");
    assert!(text.ends_with("  Duration: 1.00s\n"));
}

#[test]
fn report_orders_keys_by_code_point() {
    let out = EntitlementScanOutput {
        results: vec![result(
            "/x",
            vec![("b", PlistValue::Int(2)), ("ab", PlistValue::Int(1)), ("a", PlistValue::Int(0)), ("é", PlistValue::Int(9))],
        )],
        summary: summary(1, 1, 0, 5, None),
    };
    let text = format_human(&out, "0.00");
    assert!(text.starts_with("Found 1 binaries with 4 total entitlements:\n\n/x:\n  a: 0\n  ab: 1\n  b: 2\n  é: 9\n\n"));
}

#[test]
fn scan_output_records_interruption_only_when_it_happened() {
    let mut tally = ScanTally::new();
    tally.scanned = 4;
    tally.matched = 1;
    tally.skipped_unreadable = 2;
    tally.results.push(result("/b", vec![("k", PlistValue::Bool(true))]));
    let out = scan_output(tally, 1234, true);
    assert_eq!(out.summary, summary(4, 1, 2, 1234, Some(true)));
    assert_eq!(out.results.len(), 1);
    let out = scan_output(ScanTally::new(), 7, false);
    assert_eq!(out.summary.interrupted, None);
}

#[test]
fn summary_is_set_apart() {
    let out = EntitlementScanOutput { results: vec![], summary: summary(0, 0, 0, 0, None) };
    assert!(format_human(&out, "0.00").contains("---\nScan Summary:\n"));
}
