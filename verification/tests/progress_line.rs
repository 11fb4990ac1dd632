use listent::path::file_name;
use listent::progress::ScanProgress;

#[test]
fn test_progress_creation() {
    let progress = ScanProgress::new();
    // No directory is set yet.
    assert!(!progress.update_progress().unwrap().contains(" ["));
    assert_eq!(progress.update_progress().unwrap(), "\rProcessed 0/0 files (scanned: 0, skipped: 0)");
}

#[test]
fn test_progress_operations() {
    let mut progress = ScanProgress::new();
    assert_eq!(
        progress.set_current_directory("/test").unwrap(),
        "\rProcessed 0/0 files (scanned: 0, skipped: 0) [test]"
    );
    assert_eq!(
        progress.start_scanning(100).unwrap(),
        "\rProcessed 0/100 files (scanned: 0, skipped: 0) [test]"
    );
    assert_eq!(progress.increment_scanned(), None);
    assert_eq!(progress.increment_skipped(), None);
    assert_eq!(
        progress.complete_scanning().unwrap(),
        "\r✓ Processed 2/100 files (scanned: 1, skipped: 1) - completed\n"
    );
    assert_eq!(progress.finish().unwrap(), "\r");
}

#[test]
fn progress_is_shown_every_ten_binaries_and_hundred_skips() {
    let mut progress = ScanProgress::new();
    progress.start_scanning(12);
    for _ in 0..9 {
        assert_eq!(progress.increment_scanned(), None);
    }
    assert_eq!(progress.increment_scanned().unwrap(), "\rProcessed 10/12 files (scanned: 10, skipped: 0)");
    assert_eq!(progress.increment_scanned(), None);
    assert_eq!(progress.increment_scanned().unwrap(), "\rProcessed 12/12 files (scanned: 12, skipped: 0)");
    for _ in 0..99 {
        assert_eq!(progress.increment_skipped(), None);
    }
    assert_eq!(progress.increment_skipped().unwrap(), "\rProcessed 112/12 files (scanned: 12, skipped: 100)");
    assert_eq!(progress.show_message("note").unwrap(), "note\n");
    progress.set_total_files(500);
    assert_eq!(progress.update_progress().unwrap(), "\rProcessed 112/500 files (scanned: 12, skipped: 100)");
}

#[test]
fn directory_names() {
    let mut progress = ScanProgress::new();
    assert!(progress.set_current_directory("/").unwrap().ends_with(" [/]"));
    assert!(progress.set_current_directory("/usr/bin/").unwrap().ends_with(" [bin]"));
    assert!(progress.set_current_directory("a/..").unwrap().ends_with(" [a/..]"));
    for p in ["/usr/bin", "/usr/bin/", "/", ".", "./x", "a/..", "a/./b", "..", "x//y/.", "", "/a/b/./"] {
        let expected = std::path::Path::new(p).file_name().map(|n| n.to_str().unwrap().to_string());
        assert_eq!(file_name(p), expected, "{}", p);
    }
}
