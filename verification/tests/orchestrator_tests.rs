use revancex::collections::StrMap;
use revancex::config::apps::{AppConfig, AppDependencies};
use revancex::config::loader::{
    BuildConfig, BundleConfig, Config, KeystoreConfig, ModuleMetaConfig, TestingConfig,
};
use revancex::config::sources::PatchSourceEntry;
use revancex::orchestrator::discovery::{detect_changed_apps_from_tags, resolve_app_patch_pairs, PatchPair};
use revancex::orchestrator::scheduler::{build_mode, build_steps};
use revancex::patcher::plan::PatcherConfig;
use revancex::utils::repo_branches;
use revancex::pages::{generate_apps_json, ReleaseAssetInfo, ReleasesRegistry};
use revancex::testing::device::AdbDevice;
use revancex::utils::doctor::{adb_summary, enabled_app_count};

fn patched_app(source: &str, enabled: bool, version: Option<&str>) -> AppConfig {
    AppConfig {
        enabled,
        package: "p".to_string(),
        patch_source: source.to_string(),
        patch_branch: None,
        cli_source: String::new(),
        uptodown_url: None,
        apkmirror_url: None,
        archive_url: None,
        apkpure_url: None,
        source_priority: vec![],
        apk_source: String::new(),
        apk_url: None,
        architectures: vec![],
        mode: String::new(),
        included_patches: vec![],
        excluded_patches: vec![],
        patcher_args: None,
        patches_version: version.map(|v| v.to_string()),
        version: None,
        patches: vec![],
        keystore: None,
        module: None,
        dependencies: AppDependencies::default(),
        description: None,
        min_version: None,
        max_version: None,
        post_patch_hooks: vec![],
        display_name: None,
        bundle_priority: 100,
    }
}

fn sources_config(apps: Vec<(&str, AppConfig)>) -> Config {
    let mut map = StrMap::new();
    for (id, a) in apps {
        map.insert(id.to_string(), a);
    }
    let mut sources = StrMap::new();
    sources.insert(
        "morphe".to_string(),
        PatchSourceEntry { repo: "MorpheApp/morphe-patches".to_string(), branch: Some("dev".to_string()) },
    );
    Config {
        apps: map,
        modules: StrMap::new(),
        cli_repo: "MorpheApp/morphe-desktop".to_string(),
        cli_pattern: "morphe-*-all.jar".to_string(),
        patch_sources: sources,
        apk_sources: StrMap::new(),
        build: BuildConfig {
            java_min_version: 21,
            tools_dir: "./tools".to_string(),
            output_dir: "./output".to_string(),
            keys_dir: "./keys".to_string(),
            temp_dir: "./tmp".to_string(),
            keystore: KeystoreConfig::default(),
            workers: 4,
            download_retries: 3,
            download_timeout_secs: 180,
            version_cache: "./tmp/version_cache.json".to_string(),
            bundle: BundleConfig::default(),
            patcher: PatcherConfig::default(),
            testing: TestingConfig::default(),
            asset_exclude_patterns: vec![],
        },
        module_meta: ModuleMetaConfig::default(),
    }
}

fn sample() -> Config {
    sources_config(vec![
        ("a", patched_app("morphe", true, None)),
        ("b", patched_app("morphe", true, None)),
        ("c", patched_app("morphe", true, Some("v5"))),
        ("d", patched_app("other/repo", true, None)),
        ("e", patched_app("none", true, None)),
        ("f", patched_app("morphe", false, None)),
    ])
}

#[test]
fn apps_grouped_by_patch_pair() {
    let pairs = resolve_app_patch_pairs(&sample());
    assert_eq!(pairs.len(), 3);
    assert_eq!(pairs[0].source, "morphe");
    assert_eq!(pairs[0].repo, "MorpheApp/morphe-patches");
    assert_eq!(pairs[0].branch.as_deref(), Some("dev"));
    assert_eq!(pairs[0].apps, vec!["a", "b"]);
    assert_eq!(pairs[1].branch.as_deref(), Some("v5"));
    assert_eq!(pairs[1].apps, vec!["c"]);
    assert_eq!(pairs[2].repo, "other/repo");
    assert_eq!(pairs[2].branch, None);
}

fn pair(source: &str, branch: Option<&str>, apps: &[&str]) -> PatchPair {
    PatchPair {
        source: source.to_string(),
        repo: source.to_string(),
        branch: branch.map(|b| b.to_string()),
        apps: apps.iter().map(|a| a.to_string()).collect(),
    }
}

#[test]
fn changed_tags_detected_and_cached() {
    let pairs = vec![
        pair("s1", Some("dev"), &["z", "a"]),
        pair("s2", None, &["m"]),
        pair("s3", None, &["q"]),
        pair("s1", None, &["a", "b"]),
    ];
    let mut cached = StrMap::new();
    cached.insert("s1".to_string(), "v1".to_string());
    cached.insert("s2".to_string(), "v2".to_string());
    let latest = vec![Some("v1".to_string()), Some("v2".to_string()), None, Some("v3".to_string())];
    let (sources, apps, cache) = detect_changed_apps_from_tags(&pairs, &cached, &latest);
    assert_eq!(sources, vec!["s1"]);
    assert_eq!(apps, vec!["a", "b"]);
    assert_eq!(cache.get("s1").map(|s| s.as_str()), Some("v3"));
    assert_eq!(cache.get("s2").map(|s| s.as_str()), Some("v2"));
    assert_eq!(cache.get("s1@dev"), None);
    let fresh = vec![Some("t".to_string())];
    let (s2, a2, c2) = detect_changed_apps_from_tags(&vec![pair("s9", Some("b"), &["x"])], &StrMap::new(), &fresh);
    assert_eq!(s2, vec!["s9"]);
    assert_eq!(a2, vec!["x"]);
    assert_eq!(c2.get("s9@b").map(|s| s.as_str()), Some("t"));
}

#[test]
fn build_modes_and_steps() {
    assert_eq!(build_mode(Some("root"), "both"), "root");
    assert_eq!(build_mode(Some(""), "patch"), "full");
    assert_eq!(build_mode(None, ""), "full");
    assert_eq!(build_mode(None, "lite"), "lite");
    let copy = build_steps("./tmp", "out", "yt", "install", "morphe", "arm64-v8a");
    assert_eq!(copy.copy_to.as_deref(), Some("out/yt.apk"));
    assert!(copy.variants.is_empty());
    let both = build_steps("./tmp", "out", "yt", "both", "morphe", "arm64-v8a");
    assert_eq!(both.arch_work_apk.as_deref(), Some("./tmp/yt-arm64-v8a-work.apk"));
    assert_eq!(both.variants, vec![false, true]);
    assert!(both.later_variants_optional);
    let root = build_steps("./tmp", "out", "yt", "module", "morphe", "all");
    assert_eq!(root.arch_work_apk, None);
    assert_eq!(root.variants, vec![true]);
    assert!(build_steps("./tmp", "out", "yt", "lite", "morphe", "all").lite);
    assert!(build_steps("./tmp", "out", "yt", "full", "", "all").copy_to.is_some());
}

#[test]
fn patch_repositories_keep_their_first_branch() {
    let cfg = sample();
    let all = repo_branches(&cfg, None);
    assert_eq!(
        all,
        vec![
            ("MorpheApp/morphe-patches".to_string(), Some("dev".to_string())),
            ("other/repo".to_string(), None),
        ]
    );
    let targets = vec!["d".to_string(), "missing".to_string(), "c".to_string()];
    let some = repo_branches(&cfg, Some(&targets));
    assert_eq!(
        some,
        vec![
            ("other/repo".to_string(), None),
            ("MorpheApp/morphe-patches".to_string(), Some("v5".to_string())),
        ]
    );
}

#[test]
fn pages_listing_picks_primary_release() {
    let mut cfg = sample();
    cfg.apps.remove("e");
    let mut reg = ReleasesRegistry::default();
    let rel = |u: &str| ReleaseAssetInfo {
        filename: "f.apk".to_string(),
        url: u.to_string(),
        tag: "t1".to_string(),
        updated_at: "2024".to_string(),
    };
    reg.root_apps.insert("a".to_string(), rel("root-url"));
    reg.single_modules.insert("a".to_string(), rel("mod-url"));
    reg.stock_apps.insert("b".to_string(), rel("stock-url"));
    let list = generate_apps_json(&cfg, &reg);
    assert_eq!(list.len(), 5);
    assert_eq!(list[0].id, "a");
    assert_eq!(list[0].name, "a");
    assert_eq!(list[0].download_url.as_deref(), Some("root-url"));
    assert!(list[0].stock.is_none());
    assert_eq!(list[0].module.as_ref().map(|m| m.url.as_str()), Some("mod-url"));
    assert_eq!(list[1].download_url.as_deref(), Some("stock-url"));
    assert_eq!(list[2].tag, None);
    assert!(list[2].module_single && list[2].module_bundle);
}

#[test]
fn doctor_figures() {
    assert_eq!(adb_summary(&vec![]), "found, 0 devices connected");
    let devs = vec![
        AdbDevice { serial: "e1".to_string(), state: "device".to_string() },
        AdbDevice { serial: "e2".to_string(), state: "offline".to_string() },
    ];
    assert_eq!(adb_summary(&devs), "found, devices: e1 (device), e2 (offline)");
    assert_eq!(enabled_app_count(&sample()), 5);
}
