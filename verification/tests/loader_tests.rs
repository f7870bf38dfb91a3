use revancex::collections::StrMap;
use revancex::config::apps::{AppConfig, AppDependencies};
use revancex::config::loader::{
    check_yaml_duplicate_keys, sync_modules, validate_config, BuildConfig, BundleConfig, Config,
    ConfigError, KeystoreConfig, ModuleDefinition, ModuleMetaConfig, ModulePropMeta, ModulesFile,
    TestingConfig,
};
use revancex::patcher::plan::PatcherConfig;

fn app(package: &str, enabled: bool) -> AppConfig {
    AppConfig {
        enabled,
        package: package.to_string(),
        patch_source: String::new(),
        patch_branch: None,
        cli_source: String::new(),
        uptodown_url: None,
        apkmirror_url: None,
        archive_url: None,
        apkpure_url: None,
        source_priority: vec![],
        apk_source: String::new(),
        apk_url: None,
        architectures: vec![],
        mode: String::new(),
        included_patches: vec![],
        excluded_patches: vec![],
        patcher_args: None,
        patches_version: None,
        version: None,
        patches: vec![],
        keystore: None,
        module: None,
        dependencies: AppDependencies::default(),
        description: None,
        min_version: None,
        max_version: None,
        post_patch_hooks: vec![],
        display_name: None,
        bundle_priority: 100,
    }
}

fn build() -> BuildConfig {
    BuildConfig {
        java_min_version: 21,
        tools_dir: "./tools".to_string(),
        output_dir: "./output".to_string(),
        keys_dir: "./keys".to_string(),
        temp_dir: "./tmp".to_string(),
        keystore: KeystoreConfig::default(),
        workers: 4,
        download_retries: 3,
        download_timeout_secs: 180,
        version_cache: "./tmp/version_cache.json".to_string(),
        bundle: BundleConfig::default(),
        patcher: PatcherConfig::default(),
        testing: TestingConfig::default(),
        asset_exclude_patterns: vec![],
    }
}

fn config(apps: Vec<(&str, AppConfig)>) -> Config {
    let mut map = StrMap::new();
    for (id, a) in apps {
        map.insert(id.to_string(), a);
    }
    Config {
        apps: map,
        modules: StrMap::new(),
        cli_repo: "MorpheApp/morphe-desktop".to_string(),
        cli_pattern: "morphe-*-all.jar".to_string(),
        patch_sources: StrMap::new(),
        apk_sources: StrMap::new(),
        build: build(),
        module_meta: ModuleMetaConfig::default(),
    }
}

#[test]
fn test_duplicate_key_detection() {
    let yaml_valid = r#"
cli:
  repo: MorpheApp/morphe-desktop
patch_sources:
  anddea:
    repo: anddea/revanced-patches
  rushiranpise:
    repo: rushiranpise/morphe-patches
"#;
    assert!(check_yaml_duplicate_keys(yaml_valid).is_ok());

    let yaml_dup = r#"
patch_sources:
  rushiranpise:
    repo: a
  rushiranpise:
    repo: b
"#;
    let err = check_yaml_duplicate_keys(yaml_dup).unwrap_err();
    assert!(err.message().contains("Duplicate key 'rushiranpise'"));
}

#[test]
fn duplicate_key_reports_line_and_key() {
    let yaml = "a: 1\nb:\n  c: 1\n  c: 2\n";
    let err = check_yaml_duplicate_keys(yaml).unwrap_err();
    assert_eq!(err.key, "c");
    assert_eq!(err.line, 4);
    assert_eq!(err.message(), "Duplicate key 'c' found at line 4");
}

#[test]
fn duplicate_key_scoped_by_list_items_and_comments() {
    let yaml = "items:\n  - name: a\n    v: 1\n  - name: b\n    v: 2\n# name: x\n";
    assert!(check_yaml_duplicate_keys(yaml).is_ok());
    let top_again = "a: 1\nb: 2\na: 3\n";
    let err = check_yaml_duplicate_keys(top_again).unwrap_err();
    assert_eq!(err.key, "a");
    assert_eq!(err.line, 3);
}

#[test]
fn validate_accepts_consistent_config() {
    let mut cfg = config(vec![("youtube", app("com.google.android.youtube", true)), ("microg", app("app.revanced.android.gms", true))]);
    let mut m = ModuleDefinition::default();
    m.apps = vec!["youtube".to_string(), "microg".to_string()];
    cfg.modules.insert("bundle".to_string(), m);
    assert!(validate_config(&cfg, true).is_ok());
}

#[test]
fn test_validation_rules() {
    let mut cfg = config(vec![("youtube", app("com.google.android.youtube", true))]);
    assert!(validate_config(&cfg, true).is_ok());
    cfg.apps.insert("youtube_dup".to_string(), app("com.google.android.youtube", true));
    let mut bad = ModuleDefinition::default();
    bad.apps = vec!["youtube".to_string(), "youtube_dup".to_string()];
    cfg.modules.insert("bad_duplicate_module".to_string(), bad);
    let err = validate_config(&cfg, true).unwrap_err();
    assert!(
        err.message().contains("Package collision in module 'bad_duplicate_module'"),
        "Expected collision error, got: {}",
        err.message()
    );
    cfg.modules.remove("bad_duplicate_module");
    cfg.apps.remove("youtube_dup");
    let mut missing = ModuleDefinition::default();
    missing.apps = vec!["non_existent_app_123".to_string()];
    cfg.modules.insert("missing_app_module".to_string(), missing);
    let err2 = validate_config(&cfg, true).unwrap_err();
    assert!(err2.message().contains("non-existent app"), "got: {}", err2.message());
}

#[test]
fn validate_reports_collision_details() {
    let mut cfg = config(vec![("a", app("p", true)), ("b", app("q", true)), ("c", app("p", true))]);
    let mut m = ModuleDefinition::default();
    m.apps = vec!["a".to_string(), "b".to_string(), "c".to_string()];
    cfg.modules.insert("m".to_string(), m);
    match validate_config(&cfg, true) {
        Err(ConfigError::PackageCollision { module, apps, package }) => {
            assert_eq!(module, "m");
            assert_eq!(apps, vec!["a".to_string(), "c".to_string()]);
            assert_eq!(package, "p");
        }
        other => panic!("unexpected: {:?}", other),
    }
    let e = validate_config(&cfg, true).unwrap_err();
    assert_eq!(
        e.message(),
        "Package collision in module 'm': multiple apps [\"a\", \"c\"] share package 'p'"
    );
    assert!(validate_config(&cfg, false).is_ok());
}

#[test]
fn validate_reports_unknown_dependency_and_missing_package() {
    let mut yt = app("com.google.android.youtube", true);
    yt.dependencies = AppDependencies::Flat(vec!["microg".to_string()]);
    let cfg = config(vec![("youtube", yt)]);
    let e = validate_config(&cfg, false).unwrap_err();
    assert_eq!(e.message(), "App 'youtube' has unknown dependency 'microg'");

    let cfg2 = config(vec![("blank", app("", true))]);
    assert!(validate_config(&cfg2, false).is_ok());
    let e2 = validate_config(&cfg2, true).unwrap_err();
    assert_eq!(e2.message(), "App 'blank' is enabled but has no package defined");

    let mut cfg3 = config(vec![("off", app("x", false))]);
    let mut m = ModuleDefinition::default();
    m.apps = vec!["off".to_string()];
    cfg3.modules.insert("mod".to_string(), m);
    let e3 = validate_config(&cfg3, true).unwrap_err();
    assert_eq!(e3.message(), "Module 'mod' references disabled app 'off'");
}

#[test]
fn sync_modules_splits_and_lists_singles() {
    let mut off = app("b.pkg", false);
    off.module = None;
    let mut no_single = app("c.pkg", true);
    no_single.module = Some(revancex::config::apps::ModuleFlags { single: false, bundle: true });
    let cfg = config(vec![
        ("a", app("a.pkg", true)),
        ("b", off),
        ("c", no_single),
        ("microg", app("app.revanced.android.gms", true)),
    ]);
    let mut file = ModulesFile::default();
    let mut m = ModuleDefinition::default();
    m.apps = vec!["b".to_string(), "a".to_string(), "zzz".to_string(), "a".to_string()];
    m.disabled_apps = vec!["c".to_string()];
    m.name = Some("Main Bundle".to_string());
    m.module_id = Some("revancex-main".to_string());
    m.zip_name = Some("main.zip".to_string());
    file.modules.insert("main".to_string(), m);
    let synced = sync_modules(file, &cfg);
    let main = synced.modules.get("main").unwrap();
    assert_eq!(main.apps, vec!["a".to_string(), "c".to_string()]);
    assert_eq!(main.disabled_apps, vec!["b".to_string()]);
    assert_eq!(main.name.as_deref(), Some("Main Bundle"));
    assert_eq!(main.module_id.as_deref(), Some("revancex-main"));
    assert_eq!(main.zip_name.as_deref(), Some("main.zip"));
    assert_eq!(synced.single_modules, vec!["a".to_string()]);
}

#[test]
fn module_meta_overrides() {
    let mut meta = ModuleMetaConfig::default();
    assert_eq!(meta.resolved_id(), "revancex");
    assert_eq!(meta.resolved_name(), "ReVanceX");
    let mut prop = ModulePropMeta::default();
    prop.name = Some("Custom".to_string());
    prop.update_json = Some("https://example.invalid/u.json".to_string());
    meta.prop = Some(prop);
    assert_eq!(meta.resolved_name(), "Custom");
    assert_eq!(meta.resolved_id(), "revancex");
    assert_eq!(meta.resolved_author(), "Thunderkex");
    assert_eq!(meta.resolved_description(), "Patched apps bundle");
    assert_eq!(meta.resolved_update_json(), "https://example.invalid/u.json");
}

#[test]
fn default_java_minimum_is_jdk_17() {
    assert_eq!(revancex::config::loader::default_java(), 17);
}
