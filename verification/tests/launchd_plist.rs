use listent::launchd::LaunchDPlist;

#[test]
fn test_launchd_plist_creation() {
    let daemon_path = "/usr/local/bin/listent";
    let plist = LaunchDPlist::new(daemon_path);

    assert_eq!(plist.label, "com.microsoft.sysinternals.listent");
    assert_eq!(plist.program_arguments.len(), 2);
    assert_eq!(plist.program_arguments[0], "/usr/local/bin/listent");
    assert_eq!(plist.program_arguments[1], "--daemon");
    assert!(plist.run_at_load);
    assert!(plist.keep_alive);
}

#[test]
fn test_plist_xml_structure() {
    let plist = LaunchDPlist::new("/usr/local/bin/listent");
    let xml = plist.generate_plist();

    assert!(xml.contains("<?xml version=\"1.0\""));
    assert!(xml.contains("<!DOCTYPE plist"));
    assert!(xml.contains("<plist version=\"1.0\">"));
    assert!(xml.contains("</plist>"));
}

#[test]
fn test_plist_contains_label() {
    let plist = LaunchDPlist::new("/usr/local/bin/listent");
    let xml = plist.generate_plist();

    assert!(xml.contains("<key>Label</key>"));
    assert!(xml.contains("<string>com.microsoft.sysinternals.listent</string>"));
}

#[test]
fn test_plist_contains_program_arguments() {
    let plist = LaunchDPlist::new("/usr/local/bin/listent");
    let xml = plist.generate_plist();

    assert!(xml.contains("<key>ProgramArguments</key>"));
    assert!(xml.contains("<array>"));
    assert!(xml.contains("<string>/usr/local/bin/listent</string>"));
    assert!(xml.contains("<string>--daemon</string>"));
}

#[test]
fn test_plist_contains_run_at_load() {
    let plist = LaunchDPlist::new("/usr/local/bin/listent");
    let xml = plist.generate_plist();

    assert!(xml.contains("<key>RunAtLoad</key>"));
    assert!(xml.contains("<true/>"));
}

#[test]
fn test_plist_contains_keep_alive() {
    let plist = LaunchDPlist::new("/usr/local/bin/listent");
    let xml = plist.generate_plist();

    assert!(xml.contains("<key>KeepAlive</key>"));
    assert!(xml.contains("<true/>"));
}

#[test]
fn test_plist_contains_working_directory() {
    let plist = LaunchDPlist::new("/usr/local/bin/listent");
    let xml = plist.generate_plist();

    assert!(xml.contains("<key>WorkingDirectory</key>"));
    assert!(xml.contains("<string>/var/run/listent</string>"));
}

#[test]
fn test_plist_contains_log_paths() {
    let plist = LaunchDPlist::new("/usr/local/bin/listent");
    let xml = plist.generate_plist();

    assert!(xml.contains("<key>StandardOutPath</key>"));
    assert!(xml.contains("<string>/var/log/listent/daemon.log</string>"));
    assert!(xml.contains("<key>StandardErrorPath</key>"));
}

#[test]
fn test_plist_contains_environment_variables() {
    let plist = LaunchDPlist::new("/usr/local/bin/listent");
    let xml = plist.generate_plist();

    assert!(xml.contains("<key>EnvironmentVariables</key>"));
    assert!(xml.contains("<dict>"));
    assert!(xml.contains("<key>PATH</key>"));
    assert!(xml.contains("<string>/usr/bin:/bin:/usr/sbin:/sbin</string>"));
    assert!(xml.contains("<key>LISTENT_DAEMON_CHILD</key>"));
    assert!(xml.contains("<string>1</string>"));
}

#[test]
fn test_plist_xml_well_formed() {
    let plist = LaunchDPlist::new("/usr/local/bin/listent");
    let xml = plist.generate_plist();

    let opening_tags = xml.matches("<dict>").count();
    let closing_tags = xml.matches("</dict>").count();
    assert_eq!(opening_tags, closing_tags, "dict tags should be balanced");

    let array_open = xml.matches("<array>").count();
    let array_close = xml.matches("</array>").count();
    assert_eq!(array_open, array_close, "array tags should be balanced");
}

#[test]
fn test_plist_custom_daemon_path() {
    let plist = LaunchDPlist::new("/custom/path/to/daemon");
    let xml = plist.generate_plist();

    assert!(xml.contains("<string>/custom/path/to/daemon</string>"));
}

#[test]
fn test_plist_without_environment_variables() {
    let mut plist = LaunchDPlist::new("/usr/local/bin/listent");
    plist.environment_variables = None;

    let xml = plist.generate_plist();
    assert!(!xml.contains("<key>EnvironmentVariables</key>"));
}

#[test]
fn test_plist_without_working_directory() {
    let mut plist = LaunchDPlist::new("/usr/local/bin/listent");
    plist.working_directory = None;

    let xml = plist.generate_plist();
    assert!(!xml.contains("<key>WorkingDirectory</key>"));
}

#[test]
fn test_plist_run_at_load_false() {
    let mut plist = LaunchDPlist::new("/usr/local/bin/listent");
    plist.run_at_load = false;

    let xml = plist.generate_plist();
    assert!(xml.contains("<key>RunAtLoad</key>"));
    assert!(xml.contains("<false/>"));
}

#[test]
fn test_plist_keep_alive_false() {
    let mut plist = LaunchDPlist::new("/usr/local/bin/listent");
    plist.keep_alive = false;

    let xml = plist.generate_plist();
    assert!(xml.contains("<key>KeepAlive</key>"));
    assert!(xml.contains("<false/>"));
}

#[test]
fn plist_text_is_exact() {
    let mut plist = LaunchDPlist::new("/bin/x");
    plist.environment_variables = None;
    plist.standard_out_path = None;
    plist.standard_error_path = None;
    plist.working_directory = None;
    plist.keep_alive = false;
    let expected = "<?xml version=\"1.0\" encoding=\"UTF-8\"?>\n\
<!DOCTYPE plist PUBLIC \"-//Apple//DTD PLIST 1.0//EN\" \"http://www.apple.com/DTDs/PropertyList-1.0.dtd\">\n\
<plist version=\"1.0\">\n<dict>\n\
\t<key>Label</key>\n\t<string>com.microsoft.sysinternals.listent</string>\n\
\t<key>ProgramArguments</key>\n\t<array>\n\t\t<string>/bin/x</string>\n\t\t<string>--daemon</string>\n\t</array>\n\
\t<key>RunAtLoad</key>\n\t<true/>\n\
\t<key>KeepAlive</key>\n\t<false/>\n\
</dict>\n</plist>\n";
    assert_eq!(plist.generate_plist(), expected);
}

#[test]
fn plist_environment_section_order() {
    let plist = LaunchDPlist::new("/bin/x");
    let xml = plist.generate_plist();
    assert!(xml.contains(
        "\t<key>EnvironmentVariables</key>\n\t<dict>\n\t\t<key>PATH</key>\n\t\t<string>/usr/bin:/bin:/usr/sbin:/sbin</string>\n\t\t<key>LISTENT_DAEMON_CHILD</key>\n\t\t<string>1</string>\n\t</dict>\n"
    ));
}

#[test]
fn environment_names_are_distinct() {
    let plist = LaunchDPlist::new("/usr/local/bin/listent");
    let env = plist.environment_variables.unwrap();
    assert_eq!(env.len(), 2);
    assert_ne!(env[0].0, env[1].0);
}
