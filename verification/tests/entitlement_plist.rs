use listent::entitlements::{parse_entitlements_plist, EntitlementMap, PlistError, PlistValue};

fn get<'a>(m: &'a EntitlementMap, k: &str) -> Option<&'a PlistValue> {
    m.entries.iter().find(|(key, _)| key == k).map(|(_, v)| v)
}

#[test]
fn parses_values_of_each_kind() {
    let xml = "<?xml version=\"1.0\"?>\n<plist version=\"1.0\">\n<dict>\n\
        \t<key>com.apple.security.app-sandbox</key>\n\t<true/>\n\
        \t<key> spaced.key </key>\n\t<false/>\n\
        \t<key>team</key>\n\t<string>ABC123</string>\n\
        \t<key>count</key>\n\t<integer>-42</integer>\n\
        \t<key>big</key>\n\t<integer>99999999999999999999</integer>\n\
        \t<key>groups</key>\n\t<array>\n\t\t<string>g1</string>\n\t</array>\n\
        \t<key>nested</key>\n\t<dict>\n\t\t<key>x</key>\n\t</dict>\n\
        \t<key>when</key>\n\t<date>2020</date>\n\
        </dict>\n</plist>\n";
    let m = parse_entitlements_plist(xml).unwrap();
    assert_eq!(m.len(), 8);
    assert_eq!(get(&m, "com.apple.security.app-sandbox"), Some(&PlistValue::Bool(true)));
    assert_eq!(get(&m, "spaced.key"), Some(&PlistValue::Bool(false)));
    assert_eq!(get(&m, "team"), Some(&PlistValue::Str("ABC123".to_string())));
    assert_eq!(get(&m, "count"), Some(&PlistValue::Int(-42)));
    assert_eq!(get(&m, "big"), Some(&PlistValue::Str("99999999999999999999".to_string())));
    assert_eq!(
        get(&m, "groups"),
        Some(&PlistValue::Str("[array: <string>g1</string>]".to_string()))
    );
    assert_eq!(get(&m, "nested"), Some(&PlistValue::Str("[dict: <key>x</key>]".to_string())));
    assert_eq!(get(&m, "when"), Some(&PlistValue::Str("[unknown]".to_string())));
    let keys: Vec<String> = m.keys();
    assert_eq!(keys[0], "com.apple.security.app-sandbox");
}

#[test]
fn blank_text_has_no_entitlements() {
    assert_eq!(parse_entitlements_plist("").unwrap().len(), 0);
    assert_eq!(parse_entitlements_plist(" \n\t ").unwrap().len(), 0);
}

#[test]
fn missing_dict_is_an_error() {
    assert_eq!(parse_entitlements_plist("<plist></plist>").unwrap_err(), PlistError::NoDict);
    assert_eq!(parse_entitlements_plist("<dict><key>a</key>").unwrap_err(), PlistError::UnclosedDict);
    assert_eq!(PlistError::NoDict.message(), "No dict found in plist");
    assert_eq!(PlistError::UnclosedDict.message(), "Unclosed dict in plist");
}

#[test]
fn close_before_open_is_empty() {
    assert_eq!(parse_entitlements_plist("</dict><dict>").unwrap().len(), 0);
}

#[test]
fn later_duplicate_key_replaces_value() {
    let xml = "<dict><key>a</key><true/><key>b</key><true/><key>a</key><false/></dict>";
    let m = parse_entitlements_plist(xml).unwrap();
    assert_eq!(m.len(), 2);
    assert_eq!(m.entries[0].0, "a");
    assert_eq!(m.entries[0].1, PlistValue::Bool(false));
}

#[test]
fn value_without_end_stops_reading() {
    let xml = "<dict><key>a</key><true/><key>b</key><string>never closed</dict>";
    let m = parse_entitlements_plist(xml).unwrap();
    assert_eq!(m.len(), 1);
    assert_eq!(m.entries[0].0, "a");
}
