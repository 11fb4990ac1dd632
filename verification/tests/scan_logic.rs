use listent::entitlements::{EntitlementMap, PlistValue};
use listent::models::{ScanConfig, ScanFilters};
use listent::numeric::{parse_i64, parse_u32};
use listent::path::path_starts_with;
use listent::progress::ScanProgress;
use listent::scan::{
    check_single_file, is_mach_o_magic, process_binary, process_single_file, DiscoveredBinary, FileOutcome, ScanTally,
};

fn cfg(filters: &[&str], quiet: bool) -> ScanConfig {
    ScanConfig {
        scan_paths: vec![],
        filters: ScanFilters { entitlements: filters.iter().map(|s| s.to_string()).collect() },
        json_output: false,
        quiet_mode: quiet,
    }
}

fn map(keys: &[&str]) -> EntitlementMap {
    let mut m = EntitlementMap::new();
    for k in keys {
        m.insert(k.to_string(), PlistValue::Bool(true));
    }
    m
}

#[test]
fn mach_o_headers() {
    assert!(is_mach_o_magic(&[0xcf, 0xfa, 0xed, 0xfe]));
    assert!(is_mach_o_magic(&[0xca, 0xfe, 0xba, 0xbe]));
    assert!(!is_mach_o_magic(&[0x7f, b'E', b'L', b'F']));
    assert!(!is_mach_o_magic(&[0xcf, 0xfa, 0xed]));
}

#[test]
fn which_files_are_examined() {
    assert!(check_single_file("/bin/x", Some(0o755), None).is_some());
    assert!(check_single_file("/bin/x", Some(0o644), Some(&[0xfe, 0xed, 0xfa, 0xce])).is_some());
    assert!(check_single_file("/bin/x", Some(0o644), Some(&[1, 2, 3, 4])).is_none());
    assert!(check_single_file("/bin/x", None, Some(&[0xfe, 0xed, 0xfa, 0xce])).is_none());
    assert_eq!(check_single_file("/bin/y", Some(0o100), None).unwrap().path, "/bin/y");
}

#[test]
fn binaries_are_counted_and_reported() {
    let mut tally = ScanTally::new();
    let warn = process_binary(
        DiscoveredBinary { path: "/a".to_string() },
        Some(map(&["com.apple.security.network.client", "com.apple.private.x"])),
        &cfg(&["*network*"], false),
        &mut tally,
    );
    assert!(!warn);
    assert_eq!(tally.scanned, 1);
    assert_eq!(tally.matched, 1);
    assert_eq!(tally.results[0].path, "/a");
    assert_eq!(tally.results[0].entitlement_count, 1);
    assert_eq!(tally.results[0].entitlements.entries[0].0, "com.apple.security.network.client");

    let warn = process_binary(
        DiscoveredBinary { path: "/b".to_string() },
        Some(map(&["com.apple.private.x"])),
        &cfg(&["*network*"], false),
        &mut tally,
    );
    assert!(!warn);
    assert_eq!(tally.scanned, 2);
    assert_eq!(tally.matched, 1);

    let warn = process_binary(DiscoveredBinary { path: "/c".to_string() }, None, &cfg(&[], false), &mut tally);
    assert!(warn);
    assert_eq!(tally.skipped_unreadable, 1);
    assert_eq!(tally.scanned, 3);
    let warn = process_binary(DiscoveredBinary { path: "/c".to_string() }, None, &cfg(&[], true), &mut tally);
    assert!(!warn);

    process_binary(
        DiscoveredBinary { path: "/d".to_string() },
        Some(map(&["x", "y"])),
        &cfg(&[], false),
        &mut tally,
    );
    assert_eq!(tally.results.len(), 2);
    assert_eq!(tally.results[1].entitlement_count, 2);

    // A binary without entitlements is never reported, not even without filters.
    process_binary(DiscoveredBinary { path: "/e".to_string() }, Some(map(&[])), &cfg(&[], false), &mut tally);
    assert_eq!(tally.results.len(), 2);
    process_binary(DiscoveredBinary { path: "/f".to_string() }, Some(map(&[])), &cfg(&["*"], false), &mut tally);
    assert_eq!(tally.results.len(), 2);
}

#[test]
fn path_prefixes_by_component() {
    assert!(path_starts_with("/usr/bin/ls", "/usr"));
    assert!(path_starts_with("/usr/bin/ls", "/usr/bin/"));
    assert!(!path_starts_with("/usr/bin/ls", "/us"));
    assert!(path_starts_with("/usr//bin/./ls", "/usr/bin"));
    assert!(!path_starts_with("usr/bin", "/usr"));
    assert!(path_starts_with("./a/b", "./a"));
    assert!(!path_starts_with("a/b", "./a"));
    assert!(path_starts_with("/anything", "/"));
    assert!(path_starts_with("/x", ""));
}

#[test]
fn integer_parsing() {
    assert_eq!(parse_i64(&['4', '2']), Some(42));
    assert_eq!(parse_i64(&['-', '4', '2']), Some(-42));
    assert_eq!(parse_i64(&['+', '7']), Some(7));
    assert_eq!(parse_i64(&['-']), None);
    assert_eq!(parse_i64(&[]), None);
    assert_eq!(parse_i64(&[' ', '1']), None);
    let max: Vec<char> = "9223372036854775807".chars().collect();
    assert_eq!(parse_i64(&max), Some(i64::MAX));
    let min: Vec<char> = "-9223372036854775808".chars().collect();
    assert_eq!(parse_i64(&min), Some(i64::MIN));
    let over: Vec<char> = "9223372036854775808".chars().collect();
    assert_eq!(parse_i64(&over), None);
    assert_eq!(parse_u32(&['-', '0']), None);
    let u: Vec<char> = "4294967295".chars().collect();
    assert_eq!(parse_u32(&u), Some(u32::MAX));
}

const PLIST: &str = "<?xml version=\"1.0\"?><plist><dict><key>com.apple.security.network.client</key><true/></dict></plist>";

#[test]
fn one_file_at_a_time() {
    let config = cfg(&[], false);
    let mut tally = ScanTally::new();
    let mut progress = Some(ScanProgress::new());
    progress.as_mut().unwrap().start_scanning(4);

    // Interrupted: nothing is read or counted.
    let r = process_single_file(true, "/a", Some(0o755), None, |_p: String| -> Result<String, String> {
        panic!("not read")
    }, &config, &mut tally, &mut progress);
    assert_eq!(r.outcome, FileOutcome::Interrupted);
    assert_eq!(tally.scanned, 0);

    // Not a binary: passed over, codesign is not run.
    let r = process_single_file(false, "/notes.txt", Some(0o644), Some(&[1, 2, 3, 4]), |_p: String| -> Result<String, String> {
        panic!("not read")
    }, &config, &mut tally, &mut progress);
    assert_eq!(r.outcome, FileOutcome::Skipped);
    assert_eq!(tally.scanned, 0);
    assert!(r.progress.is_none() && r.warning.is_none());

    // A binary with entitlements is reported.
    let r = process_single_file(false, "/usr/bin/nc", Some(0o755), None, |p: String| {
        assert_eq!(p, "/usr/bin/nc");
        Ok(PLIST.to_string())
    }, &config, &mut tally, &mut progress);
    assert_eq!(r.outcome, FileOutcome::Scanned);
    assert_eq!((tally.scanned, tally.matched, tally.skipped_unreadable), (1, 1, 0));
    assert_eq!(tally.results[0].path, "/usr/bin/nc");
    assert!(r.warning.is_none());

    // codesign refused the binary: no entitlements, not reported, not unreadable.
    process_single_file(false, "/bin/x", Some(0o755), None, |_p: String| Ok(String::new()), &config, &mut tally, &mut progress);
    assert_eq!((tally.scanned, tally.matched, tally.skipped_unreadable), (2, 1, 0));

    // Unreadable output: counted as unreadable, with a warning.
    let r = process_single_file(false, "/bin/y", Some(0o755), None, |_p: String| Ok("garbage".to_string()), &config, &mut tally, &mut progress);
    assert_eq!((tally.scanned, tally.matched, tally.skipped_unreadable), (3, 1, 1));
    assert_eq!(r.warning.unwrap(), "Warning: Could not extract entitlements from /bin/y: No dict found in plist");
    let r = process_single_file(false, "/bin/z", Some(0o755), None, |_p: String| Err("no such tool".to_string()), &config, &mut tally, &mut progress);
    assert_eq!(r.warning.unwrap(), "Warning: Could not extract entitlements from /bin/z: no such tool");
    // The fourth binary is the last file: the progress line is due.
    assert_eq!(r.progress.unwrap(), "\rProcessed 5/4 files (scanned: 4, skipped: 1)");

    // Quiet scans warn of nothing.
    let quiet = cfg(&[], true);
    let mut none: Option<ScanProgress> = None;
    let r = process_single_file(false, "/bin/q", Some(0o755), None, |_p: String| Err("x".to_string()), &quiet, &mut tally, &mut none);
    assert!(r.warning.is_none() && r.progress.is_none());
}
