use listent::pattern_matcher::{
    entitlements_match_filters, matches_entitlement_filter, pattern_is_valid,
    validate_entitlement_filters, FilterError,
};

fn strings(v: &[&str]) -> Vec<String> {
    v.iter().map(|s| s.to_string()).collect()
}

#[test]
fn exact_filter_matches_only_equal_key() {
    assert!(matches_entitlement_filter(
        "com.apple.security.network.client",
        "com.apple.security.network.client"
    ));
    // no substring matching
    assert!(!matches_entitlement_filter("com.apple.security.network.client", "security.network"));
    assert!(!matches_entitlement_filter("com.apple.security.network.client", "network.client"));
}

#[test]
fn glob_star_prefix_and_infix() {
    assert!(matches_entitlement_filter("com.apple.security.app-sandbox", "com.apple.security.*"));
    assert!(!matches_entitlement_filter("com.apple.private.x", "com.apple.security.*"));
    assert!(matches_entitlement_filter("com.apple.security.network.client", "*network*"));
    assert!(matches_entitlement_filter("network", "*network*"));
    assert!(matches_entitlement_filter("a.debug.b", "*.debug.*"));
    assert!(matches_entitlement_filter("x.client", "*.client"));
    assert!(matches_entitlement_filter("", "*"));
    assert!(matches_entitlement_filter("anything at all", "*"));
    assert!(matches_entitlement_filter("abc", "a**c"));
}

#[test]
fn glob_question_mark() {
    assert!(matches_entitlement_filter("abc", "a?c"));
    assert!(!matches_entitlement_filter("ac", "a?c"));
    assert!(!matches_entitlement_filter("abbc", "a?c"));
}

#[test]
fn glob_character_classes() {
    assert!(matches_entitlement_filter("com.apple.security.x", "com.apple.[sp]*"));
    assert!(matches_entitlement_filter("com.apple.private.x", "com.apple.[sp]*"));
    assert!(!matches_entitlement_filter("com.apple.developer.x", "com.apple.[sp]*"));
    assert!(matches_entitlement_filter("Network", "*[Nn]etwork*"));
    assert!(matches_entitlement_filter("network", "*[Nn]etwork*"));
    assert!(matches_entitlement_filter("b", "[a-c]"));
    assert!(!matches_entitlement_filter("d", "[a-c]"));
    assert!(matches_entitlement_filter("d", "[!a-c]"));
    assert!(!matches_entitlement_filter("b", "[!a-c]"));
    assert!(matches_entitlement_filter("]", "[]]"));
    assert!(matches_entitlement_filter("-", "[a-]"));
}

#[test]
fn patterns_are_case_sensitive() {
    assert!(!matches_entitlement_filter("com.apple.security.network", "COM.APPLE.SECURITY.*"));
    assert!(!matches_entitlement_filter("com.apple.security.network", "com.apple.security.Network"));
}

#[test]
fn invalid_patterns_are_rejected_and_match_nothing() {
    assert!(!pattern_is_valid("com.apple.["));
    assert!(!pattern_is_valid("[!]"));
    assert!(!pattern_is_valid("[ab"));
    assert!(pattern_is_valid("[ab]"));
    assert!(pattern_is_valid("plain.key"));
    assert!(!matches_entitlement_filter("com.apple.[", "com.apple.["));
    let filters = strings(&["com.apple.*", "com.apple.["]);
    assert_eq!(
        validate_entitlement_filters(&filters),
        Err(FilterError::InvalidPattern { index: 1, pattern: "com.apple.[".to_string() })
    );
    assert_eq!(validate_entitlement_filters(&strings(&["a", "*b*"])), Ok(()));
    assert_eq!(validate_entitlement_filters(&[]), Ok(()));
}

#[test]
fn filters_are_alternatives() {
    let ents = strings(&["com.apple.security.network.client", "com.apple.security.camera"]);
    assert!(entitlements_match_filters(&ents, &[]));
    assert!(entitlements_match_filters(&[], &[]));
    assert!(!entitlements_match_filters(&[], &strings(&["*"])));
    assert!(entitlements_match_filters(&ents, &strings(&["nothing", "*camera*"])));
    assert!(!entitlements_match_filters(&ents, &strings(&["nothing", "*debug*"])));
}
