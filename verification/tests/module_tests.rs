use revancex::collections::StrMap;
use revancex::config::apps::{AppConfig, AppDependencies, ModuleFlags};
use revancex::config::loader::{
    BuildConfig, BundleConfig, Config, KeystoreConfig, ModuleDefinition, ModuleMetaConfig,
    TestingConfig,
};
use revancex::module::bundle::{
    app_list_entry, apps_list_line, bundle_apk_placement, bundle_display_name, bundle_jobs,
    bundle_tokens, consider_apk, module_prop, order_bundle_apks, parse_apk_stem,
    resolve_conflicts_for_bundle, select_within_budget, strip_crlf,
};
use revancex::module::single::{choose_single_apk, single_module_names, single_targets};
use revancex::module::{verify_bundle, ArchiveEntry, BundleCheckError};
use revancex::patcher::plan::PatcherConfig;

fn app(package: &str, enabled: bool, priority: u32) -> AppConfig {
    AppConfig {
        enabled,
        package: package.to_string(),
        patch_source: String::new(),
        patch_branch: None,
        cli_source: String::new(),
        uptodown_url: None,
        apkmirror_url: None,
        archive_url: None,
        apkpure_url: None,
        source_priority: vec![],
        apk_source: String::new(),
        apk_url: None,
        architectures: vec![],
        mode: "full".to_string(),
        included_patches: vec![],
        excluded_patches: vec![],
        patcher_args: None,
        patches_version: None,
        version: None,
        patches: vec![],
        keystore: None,
        module: None,
        dependencies: AppDependencies::default(),
        description: None,
        min_version: None,
        max_version: None,
        post_patch_hooks: vec![],
        display_name: None,
        bundle_priority: priority,
    }
}

fn build() -> BuildConfig {
    BuildConfig {
        java_min_version: 21,
        tools_dir: "./tools".to_string(),
        output_dir: "./output".to_string(),
        keys_dir: "./keys".to_string(),
        temp_dir: "./tmp".to_string(),
        keystore: KeystoreConfig::default(),
        workers: 4,
        download_retries: 3,
        download_timeout_secs: 180,
        version_cache: "./tmp/version_cache.json".to_string(),
        bundle: BundleConfig::default(),
        patcher: PatcherConfig::default(),
        testing: TestingConfig::default(),
        asset_exclude_patterns: vec![],
    }
}

fn config(apps: Vec<(&str, AppConfig)>) -> Config {
    let mut map = StrMap::new();
    for (id, a) in apps {
        map.insert(id.to_string(), a);
    }
    Config {
        apps: map,
        modules: StrMap::new(),
        cli_repo: "MorpheApp/morphe-desktop".to_string(),
        cli_pattern: "morphe-*-all.jar".to_string(),
        patch_sources: StrMap::new(),
        apk_sources: StrMap::new(),
        build: build(),
        module_meta: ModuleMetaConfig::default(),
    }
}

#[test]
fn apk_stems_and_bundle_names() {
    assert_eq!(parse_apk_stem("youtube-root"), ("youtube".to_string(), 2));
    assert_eq!(parse_apk_stem("youtube-patched"), ("youtube".to_string(), 1));
    assert_eq!(parse_apk_stem("youtube"), ("youtube".to_string(), 0));
    let cfg = config(vec![]);
    assert_eq!(bundle_display_name(&cfg, "google_apps"), "ReVanceX Google Apps Bundle");
}

#[test]
fn bundle_jobs_for_all_and_named_and_paths() {
    let mut cfg = config(vec![("yt", app("com.google.android.youtube", true, 1)), ("off", app("x", false, 1))]);
    cfg.modules.insert(
        "social".to_string(),
        ModuleDefinition { apps: vec!["yt".to_string(), "off".to_string()], name: None, module_id: None, zip_name: None, disabled_apps: vec![] },
    );
    cfg.modules.insert(
        "empty".to_string(),
        ModuleDefinition { apps: vec!["off".to_string()], name: None, module_id: None, zip_name: None, disabled_apps: vec![] },
    );
    let jobs = bundle_jobs(&cfg, " ALL ");
    assert_eq!(jobs.len(), 1);
    assert_eq!(jobs[0].apps, "yt");
    assert_eq!(jobs[0].module_id.as_deref(), Some("revancex-social"));
    assert_eq!(jobs[0].module_name.as_deref(), Some("ReVanceX Social Bundle"));
    assert_eq!(jobs[0].zip_name.as_deref(), Some("revancex-bundle-social.zip"));
    let named = bundle_jobs(&cfg, "empty");
    assert_eq!(named.len(), 1);
    assert_eq!(named[0].apps, "");
    let raw = bundle_jobs(&cfg, "out/yt-root.apk,microg");
    assert_eq!(raw[0].apps, "out/yt-root.apk,microg");
    assert!(raw[0].module_id.is_none());
    assert_eq!(bundle_tokens(" a , ,MicroG, b"), vec!["a".to_string(), "b".to_string()]);
}

#[test]
fn consider_keeps_the_preferred_build() {
    let cfg = config(vec![("yt", app("p", true, 1)), ("off", app("q", false, 1))]);
    let mut map: StrMap<(String, u8)> = StrMap::new();
    consider_apk(&mut map, &cfg, "o/yt-patched.apk", "yt-patched.apk", None, true);
    consider_apk(&mut map, &cfg, "o/yt-root.apk", "yt-root.apk", None, true);
    consider_apk(&mut map, &cfg, "o/yt.apk", "yt.apk", None, true);
    consider_apk(&mut map, &cfg, "o/off.apk", "off.apk", None, true);
    consider_apk(&mut map, &cfg, "o/microg.apk", "MicroG.apk", None, true);
    consider_apk(&mut map, &cfg, "o/other.apk", "other.apk", Some("yt"), true);
    assert_eq!(map.len(), 1);
    assert_eq!(map.get("yt").map(|e| e.0.as_str()), Some("o/yt-root.apk"));
}

#[test]
fn bundle_order_budget_and_conflicts() {
    let mut a = app("com.same", true, 5);
    a.package = "com.same".to_string();
    let cfg = config(vec![("a", a), ("b", app("com.same", true, 1)), ("c", app("com.c", true, 1))]);
    let ordered = order_bundle_apks(&cfg, vec!["o/a.apk".to_string(), "o/c.apk".to_string(), "o/b.apk".to_string(), "o/z.apk".to_string()]);
    assert_eq!(ordered, vec!["o/b.apk", "o/c.apk", "o/a.apk", "o/z.apk"]);
    assert_eq!(select_within_budget(&vec![10, 20, 30], 35), 2);
    assert_eq!(select_within_budget(&vec![10, 20], 30), 2);
    assert_eq!(select_within_budget(&vec![40], 30), 0);
    assert_eq!(select_within_budget(&vec![u64::MAX, 1], u64::MAX), 1);
    let kept = resolve_conflicts_for_bundle(&cfg, ordered).unwrap();
    assert_eq!(kept, vec!["o/b.apk", "o/c.apk", "o/z.apk"]);
}

#[test]
fn module_prop_and_texts() {
    let meta = ModuleMetaConfig::default();
    let prop = module_prop(&meta, Some("revancex-yt"), Some("ReVanceX - YouTube"), "1.2.0", 42);
    assert_eq!(
        prop,
        "id=revancex-yt\nname=ReVanceX - YouTube\nversion=v1.2.0\nversionCode=42\nauthor=Thunderkex\ndescription=Patched module for ReVanceX - YouTube via ReVanceX\nminMagisk=20400\nminKernelSU=10200\n"
    );
    let mut meta2 = ModuleMetaConfig::default();
    meta2.update_json = "https://u/j.json".to_string();
    let prop2 = module_prop(&meta2, None, None, "1", 7);
    assert_eq!(
        prop2,
        "id=revancex\nname=ReVanceX\nversion=v1\nversionCode=7\nauthor=Thunderkex\ndescription=Patched apps bundle\nminMagisk=20400\nminKernelSU=10200\nupdateJson=https://u/j.json\n"
    );
    assert_eq!(strip_crlf(b"a\r\nb\r\n"), b"a\nb\n".to_vec());
}

#[test]
fn apps_list_entries_and_placement() {
    let mut yt = app("com.google.android.youtube", true, 1);
    yt.description = Some("Video".to_string());
    let cfg = config(vec![("youtube_music", yt)]);
    let e = app_list_entry(&cfg, "out/youtube_music-root.apk", None);
    assert_eq!(e.id, "youtube_music");
    assert_eq!(e.name, "YouTube music");
    assert_eq!(e.package, "com.google.android.youtube");
    assert_eq!(e.mode, "full");
    assert_eq!(e.description.as_deref(), Some("Video"));
    assert_eq!(apps_list_line(&e), "youtube_music:com.google.android.youtube:full\n");
    let other = app_list_entry(&cfg, "out/microg_x.apk", Some("com.real".to_string()));
    assert_eq!(other.name, "MicroG x");
    assert_eq!(other.package, "com.real");
    assert_eq!(other.mode, "patch");
    let p = bundle_apk_placement("./tmp", "out/yt-root.apk");
    assert_eq!(p.app_dir, "yt");
    assert_eq!(p.apk_entry, "apks/yt.apk");
    assert_eq!(p.stock_entry, "stock/yt.apk");
    assert_eq!(p.stock_candidates, vec!["./tmp/yt-input.apk", "tmp/yt-input.apk", "./tmp/yt.apk"]);
}

fn entry(name: &str, size: u64, text: &str) -> ArchiveEntry {
    ArchiveEntry { name: name.to_string(), size, text: text.to_string() }
}

fn good_entries() -> Vec<ArchiveEntry> {
    vec![
        entry("META-INF/com/google/android/update-binary", 10, ""),
        entry("META-INF/com/google/android/updater-script", 8, "#MAGISK\n"),
        entry("module.prop", 50, "id=revancex\nname=ReVanceX\nversion=v1\nversionCode=12\n"),
        entry("customize.sh", 5, ""),
        entry("service.sh", 5, ""),
        entry("utils.sh", 5, ""),
        entry("apks/yt.apk", 5000, ""),
        entry("apks/tiny.apk", 10, ""),
    ]
}

#[test]
fn bundle_verification_counts_and_refusals() {
    assert_eq!(verify_bundle(&good_entries()), Ok(1));
    let mut bad_id = good_entries();
    bad_id[2].text = "id=1x\nname=a\nversion=v\nversionCode=1\n".to_string();
    assert_eq!(verify_bundle(&bad_id), Err(BundleCheckError::InvalidModuleProp));
    let mut zero_code = good_entries();
    zero_code[2].text = "id=ok\nname=a\nversion=v\nversionCode=0\n".to_string();
    assert_eq!(verify_bundle(&zero_code), Err(BundleCheckError::InvalidModuleProp));
    let mut no_magisk = good_entries();
    no_magisk[1].text = "#!/sbin/sh".to_string();
    assert_eq!(verify_bundle(&no_magisk), Err(BundleCheckError::MissingMagiskMarker));
    let mut empty_binary = good_entries();
    empty_binary[0].size = 0;
    assert_eq!(verify_bundle(&empty_binary), Err(BundleCheckError::MissingUpdateBinary));
    let no_apks: Vec<ArchiveEntry> = good_entries().into_iter().filter(|e| !e.name.starts_with("apks/yt")).collect();
    assert_eq!(verify_bundle(&no_apks), Err(BundleCheckError::NoApks));
    assert_eq!(
        BundleCheckError::MissingServiceScript.message(),
        "Verification failed: missing or empty service.sh"
    );
}

#[test]
fn single_module_targets_choice_and_names() {
    let mut no_single = app("p3", true, 1);
    no_single.module = Some(ModuleFlags { single: false, bundle: true });
    let mut named = app("p1", true, 1);
    named.display_name = Some("YouTube".to_string());
    let cfg = config(vec![("yt", named), ("b_app", app("p2", true, 1)), ("ns", no_single), ("microg", app("m", true, 1))]);
    let all = single_targets(&cfg, "all");
    assert!(all.tolerate_failures);
    assert_eq!(all.ids, vec!["b_app", "yt"]);
    let some = single_targets(&cfg, "yt, microg ,x");
    assert!(!some.tolerate_failures);
    assert_eq!(some.ids, vec!["yt", "x"]);
    let files = vec![
        ("o/yt-patched.apk".to_string(), "yt-patched.apk".to_string()),
        ("o/yt-root.apk".to_string(), "yt-root.apk".to_string()),
        ("o/yt-patched-root.apk".to_string(), "yt-patched-root.apk".to_string()),
        ("o/ytx.apk".to_string(), "ytx.apk".to_string()),
    ];
    assert_eq!(choose_single_apk(&files, "yt", "o"), Ok("o/yt-root.apk".to_string()));
    assert_eq!(choose_single_apk(&files, "zz", "o"), Err("No APK found for app 'zz' in 'o'".to_string()));
    let n = single_module_names(&cfg, "yt");
    assert_eq!(n.module_id, "revancex-yt");
    assert_eq!(n.module_name, "ReVanceX - YouTube");
    assert_eq!(n.zip_name, "revancex-module-yt.zip");
    assert_eq!(single_module_names(&cfg, "new_app").module_name, "ReVanceX - new app");
    assert_eq!(single_module_names(&cfg, "b_app").module_name, "ReVanceX - B App");
}

#[test]
fn test_bundle_conflict_resolution() {
    let mut cfg = config(vec![
        ("youtube", app("com.google.android.youtube", true, 1)),
        ("spotify", app("com.spotify.music", true, 1)),
    ]);
    cfg.apps.insert("youtube_alt".to_string(), app("com.google.android.youtube", true, 1));
    let apks = vec![
        "output/youtube.apk".to_string(),
        "output/youtube_alt.apk".to_string(),
        "output/spotify.apk".to_string(),
    ];
    let result = resolve_conflicts_for_bundle(&cfg, apks);
    assert!(result.is_ok(), "Expected conflict to warn-and-continue, not bail");
    let kept = result.unwrap();
    assert_eq!(kept.len(), 2, "Expected 2 APKs after conflict resolution");
}
