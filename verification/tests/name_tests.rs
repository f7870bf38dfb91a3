use revancex::patcher::name::{normalize, MatchRule};

#[test]
fn test_normalize() {
    assert_eq!(normalize("Custom branding-icon"), "custom branding icon");
    assert_eq!(normalize("GmsCore_support"), "gmscore support");
    assert_eq!(normalize("Change-Package-Name"), "change package name");
}

#[test]
fn test_matches() {
    let rule = MatchRule::Contains {
        contains: "custom branding".to_string(),
    };
    assert!(revancex::patcher::name::matches(&rule, "Custom Branding Icon for YouTube"));
    assert!(revancex::patcher::name::matches(&rule, "custom-branding"));
    assert!(!revancex::patcher::name::matches(&rule, "hide-shorts"));
}

#[test]
fn test_patcher_name_normalization_idempotent() {
    let inputs = [
        "Custom branding icon for YouTube",
        "GmsCore_support-v2",
        "hide-shorts",
        "   multiple   spaces   and---hyphens_here  ",
    ];
    for input in inputs {
        let once = normalize(input);
        let twice = normalize(&once);
        assert_eq!(once, twice, "Normalization must be idempotent for '{input}'");
    }
}

#[test]
fn normalize_collapses_runs_and_trims() {
    assert_eq!(normalize("   multiple   spaces   and---hyphens_here  "), "multiple spaces and hyphens here");
    assert_eq!(normalize(""), "");
    assert_eq!(normalize("--__--"), "");
}

#[test]
fn rules_equals_and_regex() {
    let eq = MatchRule::Equals { equals: "Hide Shorts".to_string() };
    assert!(revancex::patcher::name::matches(&eq, "hide-shorts"));
    assert!(!revancex::patcher::name::matches(&eq, "hide-shorts-button"));
    let re = MatchRule::Regex { regex: "^hide".to_string() };
    assert!(revancex::patcher::name::matches(&re, "hide-shorts"));
    assert!(!revancex::patcher::name::matches(&re, "Unhide"));
    let bad = MatchRule::Regex { regex: "(".to_string() };
    assert!(!revancex::patcher::name::matches(&bad, "anything"));
}
