use revancex::patcher::cli::build_args;
use revancex::config::apps::{AppConfig, AppDependencies};
use revancex::patcher::metadata::{parse_list_patches_output, resolve_compatible_versions, PackageCompat, PatchMeta};
use revancex::patcher::name::MatchRule;
use revancex::patcher::plan::{resolve, DisableReason, PatcherRules};
use std::sync::Arc;

fn app(package: &str) -> AppConfig {
    AppConfig {
        enabled: true,
        package: package.to_string(),
        patch_source: String::new(),
        patch_branch: None,
        cli_source: String::new(),
        uptodown_url: None,
        apkmirror_url: None,
        archive_url: None,
        apkpure_url: None,
        source_priority: vec![],
        apk_source: String::new(),
        apk_url: None,
        architectures: vec![],
        mode: String::new(),
        included_patches: vec![],
        excluded_patches: vec![],
        patcher_args: None,
        patches_version: None,
        version: None,
        patches: vec![],
        keystore: None,
        module: None,
        dependencies: AppDependencies::default(),
        description: None,
        min_version: None,
        max_version: None,
        post_patch_hooks: vec![],
        display_name: None,
        bundle_priority: 100,
    }
}

fn meta(name: &str, pkg: &str, versions: &[&str]) -> PatchMeta {
    PatchMeta {
        name: name.to_string(),
        description: String::new(),
        compatible_packages: vec![PackageCompat {
            name: pkg.to_string(),
            versions: versions.iter().map(|v| v.to_string()).collect(),
        }],
    }
}

#[test]
fn test_plan_resolve_with_apk_version_auto_disables_incompatible() {
    let mut app = app("com.test.pkg");
    app.patches = vec!["PatchA".to_string(), "PatchB".to_string()];
    let meta = Arc::new(vec![meta("PatchA", "com.test.pkg", &["1.0.0"]), meta("PatchB", "com.test.pkg", &["2.0.0"])]);
    let plan = resolve(&app, false, Some(&meta), Some("1.0.0"), &PatcherRules::default());
    assert!(plan.included.contains(&"PatchA".to_string()));
    assert!(!plan.included.contains(&"PatchB".to_string()));
    assert!(plan.excluded.contains(&"PatchB".to_string()));
    assert_eq!(plan.auto_disabled.len(), 1);
    assert_eq!(plan.auto_disabled[0].name, "PatchB");
    for inc in &plan.included {
        assert!(!plan.excluded.contains(inc), "patch {inc} cannot be in both included and excluded");
    }
}

#[test]
fn test_patch_plan_invariants() {
    let mut a = app("com.x");
    a.included_patches = vec!["Hide shorts".to_string(), "Custom branding".to_string()];
    a.excluded_patches = vec!["Other".to_string()];
    let mut rules = PatcherRules::default();
    rules.nonroot.exclude = vec![MatchRule::Contains { contains: "branding".to_string() }, MatchRule::Equals { equals: "GmsCore support".to_string() }];
    let plan = resolve(&a, false, None, None, &rules);
    for inc in &plan.included {
        assert!(!plan.excluded.contains(inc), "patch {inc} cannot be in both included and excluded");
    }
    assert_eq!(plan.included, vec!["Hide shorts".to_string()]);
    assert_eq!(plan.excluded, vec!["Other".to_string(), "branding".to_string(), "GmsCore support".to_string()]);
    match &plan.auto_disabled[0].reason {
        DisableReason::RuleExcluded { rule } => assert_eq!(rule, "Contains { contains: \"branding\" }"),
        other => panic!("unexpected {:?}", other),
    }
}

#[test]
fn plan_adds_dependency_patches() {
    let mut a = app("com.x");
    a.dependencies = AppDependencies::Flat(vec!["microg".to_string()]);
    let mut rules = PatcherRules::default();
    rules.root.include_if_dependency.insert("microg".to_string(), vec![MatchRule::Contains { contains: "gmscore".to_string() }]);
    let metas = Arc::new(vec![meta("GmsCore support", "com.x", &[]), meta("Other", "com.x", &[])]);
    let plan = resolve(&a, true, Some(&metas), None, &rules);
    assert_eq!(plan.included, vec!["GmsCore support".to_string()]);
    let plan2 = resolve(&a, false, Some(&metas), None, &rules);
    assert!(plan2.included.is_empty());
}

#[test]
fn test_resolve_compatible_versions_maximum_coverage() {
    let patches = vec![
        meta("P1", "com.pkg", &["1.0.0", "2.0.0"]),
        meta("P2", "com.pkg", &["2.0.0", "3.0.0"]),
        meta("P3", "com.pkg", &["2.0.0"]),
        meta("P4", "com.pkg", &["4.0.0"]),
    ];
    let result = resolve_compatible_versions(&patches, "com.pkg", &[]);
    assert_eq!(result, vec!["2.0.0".to_string()]);
}

#[test]
fn compatible_versions_ties_sorted_and_filtered() {
    let patches = vec![
        meta("A", "com.pkg", &["10.0", "9.0"]),
        meta("B", "com.pkg", &["9.0", "10.0"]),
        meta("C", "other", &["9.0"]),
        meta("D", "com.pkg", &["1.0"]),
    ];
    assert_eq!(resolve_compatible_versions(&patches, "com.pkg", &[]), vec!["9.0".to_string(), "10.0".to_string()]);
    assert_eq!(resolve_compatible_versions(&patches, "com.pkg", &["d".to_string()]), vec!["1.0".to_string()]);
    assert!(resolve_compatible_versions(&patches, "none", &[]).is_empty());
}

#[test]
fn list_patches_output_is_read() {
    let text = "Index: 0\nName: Hide shorts\nDescription:  Hides shorts. \nCompatible packages:\n\tPackage name: com.google.android.youtube\n\tCompatible versions:\n\t\t19.16.39\n\t\t19.16.39\n\t\t20.1.0\n\nIndex: 1\nName: Spoof\nPackage name: a.b\n";
    let patches = parse_list_patches_output(text);
    assert_eq!(patches.len(), 2);
    assert_eq!(patches[0].name, "Hide shorts");
    assert_eq!(patches[0].description, "Hides shorts.");
    assert_eq!(patches[0].compatible_packages.len(), 1);
    assert_eq!(patches[0].compatible_packages[0].name, "com.google.android.youtube");
    assert_eq!(patches[0].compatible_packages[0].versions, vec!["19.16.39".to_string(), "20.1.0".to_string()]);
    assert_eq!(patches[1].name, "Spoof");
    assert_eq!(patches[1].compatible_packages[0].name, "a.b");
    assert!(patches[1].compatible_packages[0].versions.is_empty());
}

#[test]
fn test_build_args_uses_resolved_plan() {
    let mut with_rules = app("com.google.android.youtube");
    with_rules.patches = vec!["Custom branding".to_string(), "Hide shorts".to_string()];
    with_rules.included_patches = vec!["Hide shorts".to_string()];
    with_rules.excluded_patches = vec!["Custom branding".to_string()];
    let apps = vec![("youtube", with_rules), ("plain", app("com.example"))];
    for (id, app) in &apps {
        for is_root in [false, true] {
            let plan = resolve(app, is_root, None, None, &PatcherRules::default());
            let args = build_args("./tools", &app.patch_source, app, "input.apk", "output.apk", &plan, false, false, None, false, "revanced");
            assert_eq!(args.included, plan.included, "App {id} (root={is_root}): args.included must equal plan.included");
            assert_eq!(args.excluded, plan.excluded, "App {id} (root={is_root}): args.excluded must equal plan.excluded");
        }
    }
}
