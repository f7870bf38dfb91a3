use revancex::builder::apkmirror::{
    choose_apkmirror_release, choose_apkmirror_variant, choose_github_apk, follow_link, page_links,
};
use revancex::builder::{
    base_apk_index, breaker_after, breaker_threshold, cached_input, cdn_referers, is_split_bundle, source_attempt, uptodown_allowed,
    sources_exhausted, SourceAttempt, UptodownError,
};
use revancex::collections::StrMap;
use revancex::config::apps::{AppConfig, AppDependencies, HookWhen, KeystoreRef, PostPatchHook};
use revancex::config::loader::KeystoreConfig;
use revancex::patcher::cli::build_args;
use revancex::patcher::plan::PatchPlan;
use revancex::patcher::{hook_applies, hook_verdict, patch_command, patched_output_apk, HookOutcome};
use revancex::testing::device::{install_failure, launch_component, parse_adb_devices, parse_pid};
use revancex::testing::{
    app_id_of_stem, device_check, dex_entries, find_input_apk, is_requested, static_check, DeviceRun,
    TestReport, TestReportItem,
};
use revancex::utils::github::{asset_url, listing_status_error, pick_release, GhAsset, GhRelease, ReleaseChoice};
use revancex::utils::keystore::{
    base64_decode, default_keystore_file, keystore_fingerprint, keystore_source, keytool_generate_args,
    resolved_keystore, KeystoreSource,
};
use revancex::utils::{
    aria2_args, bundle_destinations, fallback_referer, integrity_failure, java_version_verdict,
    retry_delay_secs, tool_needs_download,
};

fn plain_app() -> AppConfig {
    AppConfig {
        enabled: true,
        package: "com.example".to_string(),
        patch_source: "morphe".to_string(),
        patch_branch: None,
        cli_source: String::new(),
        uptodown_url: None,
        apkmirror_url: None,
        archive_url: None,
        apkpure_url: None,
        source_priority: vec![],
        apk_source: String::new(),
        apk_url: None,
        architectures: vec![],
        mode: String::new(),
        included_patches: vec![],
        excluded_patches: vec![],
        patcher_args: None,
        patches_version: None,
        version: None,
        patches: vec![],
        keystore: None,
        module: None,
        dependencies: AppDependencies::default(),
        description: None,
        min_version: None,
        max_version: None,
        post_patch_hooks: vec![],
        display_name: None,
        bundle_priority: 100,
    }
}

#[test]
fn base64_decodes_padding_and_whitespace() {
    assert_eq!(base64_decode("aGVsbG8=").unwrap(), b"hello".to_vec());
    assert_eq!(base64_decode("aGVs\nbG8h").unwrap(), b"hell\x6f!".to_vec());
    assert_eq!(base64_decode("TWFu").unwrap(), b"Man".to_vec());
    assert_eq!(base64_decode("TWE=").unwrap(), b"Ma".to_vec());
    assert_eq!(base64_decode("TQ==").unwrap(), b"M".to_vec());
    assert_eq!(base64_decode("TWFuTQ").unwrap(), b"Man".to_vec());
    assert_eq!(base64_decode("").unwrap(), Vec::<u8>::new());
    assert_eq!(base64_decode("*WFu"), Err("Invalid base64 character".to_string()));
    assert_eq!(base64_decode("TWé="), Err("Invalid base64 character".to_string()));
    assert_eq!(base64_decode("TWFué").unwrap(), b"Man".to_vec());
}

#[test]
fn keystore_source_order_and_result() {
    let mut app = plain_app();
    assert_eq!(keystore_source(true, &app, true, true, None, false), KeystoreSource::DefaultFile);
    assert_eq!(keystore_source(false, &app, true, true, None, false), KeystoreSource::FromBase64);
    app.keystore = Some(KeystoreRef { alias: "mine".to_string(), file: "k/app.jks".to_string() });
    assert_eq!(keystore_source(false, &app, true, true, None, false), KeystoreSource::AppFile);
    assert_eq!(
        keystore_source(false, &app, false, false, Some("/x.jks"), true),
        KeystoreSource::CopiedFrom("/x.jks".to_string())
    );
    assert_eq!(keystore_source(false, &app, false, false, Some("/x.jks"), false), KeystoreSource::Generated);
    let ks = resolved_keystore("./keys", &app, &KeystoreSource::AppFile, "secret".to_string());
    assert_eq!((ks.file.as_str(), ks.alias.as_str(), ks.generated), ("k/app.jks", "mine", false));
    let gen = resolved_keystore("./keys", &app, &KeystoreSource::Generated, "pw".to_string());
    assert_eq!((gen.file.as_str(), gen.alias.as_str(), gen.generated), ("./keys/revanced.jks", "revanced", true));
    assert_eq!(default_keystore_file("k"), "k/revanced.jks");
    let args = keytool_generate_args(&KeystoreConfig::default(), "f.jks", "a", "p");
    assert_eq!(args.len(), 21);
    assert_eq!(args[8], "4096");
    assert_eq!(args[10], "10000");
    assert_eq!(args[20], "pkcs12");
    let out = "Alias name: a\n   SHA1: 00\n\t SHA256: AB:CD \nx";
    assert_eq!(keystore_fingerprint(out).as_deref(), Some("SHA256: AB:CD"));
    assert_eq!(keystore_fingerprint("none"), None);
}

fn release(tag: &str, commitish: &str, pre: bool) -> GhRelease {
    GhRelease {
        tag_name: tag.to_string(),
        target_commitish: commitish.to_string(),
        prerelease: pre,
        assets: vec![
            GhAsset { name: "morphe-cli-1.0-all.jar".to_string(), browser_download_url: "u1".to_string() },
            GhAsset { name: "patches-1.0.mpp".to_string(), browser_download_url: "u2".to_string() },
        ],
    }
}

#[test]
fn github_release_and_asset_choice() {
    let rs = vec![release("v2.0.0-dev.1", "dev", true), release("v1.9.0", "main", false), release("1.8.0", "main", false)];
    assert_eq!(pick_release(&rs, None), ReleaseChoice::Listed(1));
    assert_eq!(pick_release(&rs, Some("Dev")), ReleaseChoice::Listed(0));
    assert_eq!(pick_release(&rs, Some("1.8.0")), ReleaseChoice::Listed(2));
    assert_eq!(pick_release(&rs, Some("v1.9.0")), ReleaseChoice::Listed(1));
    assert_eq!(pick_release(&rs, Some("3.0")), ReleaseChoice::ByTag("v3.0".to_string()));
    assert_eq!(pick_release(&vec![], None), ReleaseChoice::Latest);
    let pre_only = vec![release("a", "x", true)];
    assert_eq!(pick_release(&pre_only, None), ReleaseChoice::Listed(0));
    assert_eq!(asset_url(&rs[0], "morphe-*-all.jar", "r"), Ok("u1".to_string()));
    assert_eq!(asset_url(&rs[0], "*.mpp", "r"), Ok("u2".to_string()));
    assert_eq!(asset_url(&rs[0], "*.apk", "o/r"), Err("No asset matching '*.apk' in o/r".to_string()));
    assert_eq!(listing_status_error("o/r", 404, None).as_deref(), Some("GitHub repo o/r not found (404)"));
    assert_eq!(listing_status_error("o/r", 403, Some("5")), None);
    assert!(listing_status_error("o/r", 403, Some("0")).unwrap().starts_with("GitHub API rate limit exceeded for o/r"));
    assert_eq!(listing_status_error("o/r", 200, None), None);
}

#[test]
fn adb_output_parsing() {
    let devs = parse_adb_devices(b"List of devices attached\nemu-5554\tdevice\nbroken\n\nR58\tunauthorized\n");
    assert_eq!(devs.len(), 2);
    assert_eq!((devs[0].serial.as_str(), devs[0].state.as_str()), ("emu-5554", "device"));
    assert_eq!((devs[1].serial.as_str(), devs[1].state.as_str()), ("R58", "unauthorized"));
    assert_eq!(install_failure(true, b"Success\n", b""), None);
    assert_eq!(
        install_failure(true, b"Performing\nFailure [INSTALL_FAILED_VERSION_DOWNGRADE]\n", b"").as_deref(),
        Some("Install failed: Failure [INSTALL_FAILED_VERSION_DOWNGRADE]")
    );
    assert_eq!(install_failure(false, b"", b" boom ").as_deref(), Some("Install failed: boom"));
    assert_eq!(parse_pid(b" 1234 5678\n"), Some(1234));
    assert_eq!(parse_pid(b"\n"), None);
    assert_eq!(parse_pid(b"x"), None);
    assert_eq!(launch_component("com.a"), "com.a/.MainActivity");
}

#[test]
fn smoke_test_results() {
    assert_eq!(app_id_of_stem("yt-patched-root"), "yt");
    assert!(is_requested("all", "x"));
    assert!(is_requested("a, yt ,b", "yt"));
    assert!(!is_requested("a,b", "yt"));
    let names = vec!["yt-arm-input.apk".to_string(), "ytm-input.apk".to_string(), "yt-input.apk".to_string()];
    assert_eq!(find_input_apk(&names, "yt"), Some(0));
    assert_eq!(find_input_apk(&names, "zz"), None);
    let d1 = dex_entries(&vec![("classes.dex".to_string(), 1), ("res.arsc".to_string(), 2), ("classes2.dex".to_string(), 3)]);
    let d2 = dex_entries(&vec![("classes2.dex".to_string(), 3), ("classes.dex".to_string(), 1)]);
    let d3 = dex_entries(&vec![("classes.dex".to_string(), 9)]);
    assert_eq!(d1.len(), 2);
    let same = static_check("yt", "com.yt", Some(&d1), Some(&d2));
    assert_eq!(same.status, "failed");
    assert_eq!(same.reason.as_deref(), Some("output APK dex is identical to unpatched input APK \u{2014} 0 patches applied"));
    let ok = static_check("yt", "com.yt", Some(&d1), Some(&d3));
    assert_eq!(ok.status, "passed");
    let empty = StrMap::new();
    assert_eq!(static_check("yt", "com.yt", Some(&empty), None).reason.as_deref(), Some("corrupt APK or missing classes.dex"));
    assert_eq!(static_check("yt", "", None, None).reason.as_deref(), Some("could not resolve package name from manifest"));
    let dead = device_check("yt", "p", &DeviceRun::Launched { install_ms: 5, launch_ms: 6, launch_ok: true, alive: false });
    assert_eq!(dead.status, "failed");
    assert_eq!(dead.reason.as_deref(), Some("process died within startup grace period"));
    let good = device_check("yt", "p", &DeviceRun::Launched { install_ms: 5, launch_ms: 6, launch_ok: true, alive: true });
    assert_eq!((good.status.as_str(), good.install_ms, good.launch_ms, good.reason.is_none()), ("passed", Some(5), Some(6), true));
    let skipped = device_check("yt", "p", &DeviceRun::NoPackage);
    assert_eq!(skipped.status, "skipped");
    let mut report = TestReport::default();
    report.record(good);
    report.record(dead);
    report.record(skipped);
    report.record(TestReportItem {
        app: "z".to_string(),
        package: String::new(),
        status: "other".to_string(),
        install_ms: None,
        launch_ms: None,
        reason: None,
    });
    assert_eq!((report.items.len(), report.passed, report.failed, report.skipped), (4, 1, 1, 1));
}

#[test]
fn patcher_arguments_and_hooks() {
    let mut app = plain_app();
    app.patches_version = Some("v5".to_string());
    app.patcher_args = Some("--opt 'quoted' ''x''".to_string());
    app.keystore = Some(KeystoreRef { alias: "al".to_string(), file: "k.jks".to_string() });
    let plan = PatchPlan {
        included: vec!["A".to_string()],
        excluded: vec!["B".to_string(), "C".to_string()],
        auto_disabled: vec![],
        warnings: vec![],
    };
    let a = build_args("./tools", "Org/repo", &app, "in.apk", "out.apk", &plan, false, true, None, true, "pw");
    assert_eq!(a.cli_jar, "./tools/morphe-cli.jar");
    assert_eq!(a.patches_arg, "./tools/patches_Org_repo.mpp");
    assert_eq!(a.raw_args, vec!["--opt", "quoted", "x"]);
    assert_eq!(a.keystore, Some(("k.jks".to_string(), "al".to_string(), "pw".to_string())));
    let b = build_args("./tools", "alias", &app, "in.apk", "out.apk", &plan, true, true, None, false, "pw");
    assert_eq!(b.patches_arg, "./tools/patches_alias_v5.mpp");
    assert_eq!(b.keystore, None);
    let c = build_args("./tools", "alias", &plain_app(), "i", "o", &plan, true, false, Some("./tools/x.mpp".to_string()), false, "pw");
    assert_eq!(c.patches_arg, "./tools/x.mpp");
    let d = build_args("./tools", "alias", &plain_app(), "i", "o", &plan, false, false, None, false, "pw");
    assert_eq!(d.patches_arg, "https://github.com/MorpheApp/morphe-patches");
    let e = build_args("./tools", "o/r", &plain_app(), "i", "o", &plan, false, false, None, false, "pw");
    assert_eq!(e.patches_arg, "https://github.com/o/r");
    let cmd = patch_command(&b, "ks.jks", "revanced", "secret");
    assert_eq!(
        cmd,
        vec![
            "-jar", "./tools/morphe-cli.jar", "patch", "--patches=./tools/patches_alias_v5.mpp",
            "--continue-on-error", "-o", "out.apk", "--exclusive", "--keystore=ks.jks",
            "--keystore-entry-alias=revanced", "--keystore-password=secret",
            "--keystore-entry-password=secret", "-e", "A", "-d", "B", "-d", "C", "--opt", "quoted",
            "x", "in.apk",
        ]
    );
    assert_eq!(patched_output_apk("out", "yt", true, "both"), "out/yt-root.apk");
    assert_eq!(patched_output_apk("out", "yt", true, "root"), "out/yt-patched.apk");
    let hook = PostPatchHook { script: "h.py".to_string(), when: HookWhen::Root, optional: false };
    assert!(hook_applies(&hook, true));
    assert!(!hook_applies(&hook, false));
    assert_eq!(hook_verdict("yt", &hook, false, &HookOutcome::Succeeded), Err("yt: declared hook script not found: h.py".to_string()));
    assert_eq!(
        hook_verdict("yt", &hook, true, &HookOutcome::ExitedWith("exit status: 1".to_string())),
        Err("yt: hook h.py exited with exit status: 1".to_string())
    );
    let optional = PostPatchHook { script: "h.py".to_string(), when: HookWhen::Always, optional: true };
    assert_eq!(hook_verdict("yt", &optional, true, &HookOutcome::FailedToLaunch("no python".to_string())), Ok(()));
    assert_eq!(hook_verdict("yt", &optional, false, &HookOutcome::Succeeded), Ok(()));
}

#[test]
fn download_and_tool_decisions() {
    assert!(tool_needs_download(false, None, None));
    assert!(tool_needs_download(true, Some("v2"), Some("v1")));
    assert!(!tool_needs_download(true, Some("v2"), None));
    assert!(!tool_needs_download(true, Some("v1"), Some("v1")));
    assert_eq!(
        bundle_destinations("t", "o/r", Some("dev")),
        ("t/patches_o_r.mpp".to_string(), Some("t/patches_o_r_dev.mpp".to_string()))
    );
    assert_eq!(integrity_failure("a.jar", None), None);
    assert_eq!(integrity_failure("a.apk", Some(&[0x50, 0x4b, 3, 4])), None);
    assert_eq!(
        integrity_failure("a.apk", Some(&[0x50, 0x4b, 5, 6])).as_deref(),
        Some("Download integrity failure: a.apk is not a valid ZIP/APK archive (bad magic bytes)")
    );
    assert!(integrity_failure("b-input.apk", None).is_some());
    assert_eq!(retry_delay_secs(0, 3), Some(1));
    assert_eq!(retry_delay_secs(2, 3), Some(4));
    assert_eq!(retry_delay_secs(3, 3), None);
    assert_eq!(fallback_referer("https://d.apkpure.com/x").as_deref(), Some("https://apkpure.com/"));
    assert_eq!(fallback_referer("https://x"), None);
    let args = aria2_args("UA", Some("https://r"), "dir", "f.apk", "https://u");
    assert_eq!(args.len(), 21);
    assert_eq!(args[14], "--header");
    assert_eq!(args[15], "Referer: https://r");
    assert_eq!(args[20], "https://u");
    assert_eq!(java_version_verdict("openjdk version \"17.0.1\"", 21), Err("Java version 17 is below configured minimum of 21 \u{2014} please upgrade JDK".to_string()));
    assert_eq!(java_version_verdict("openjdk version \"21.0.1\"", 21), Ok(21));
    assert!(java_version_verdict("nothing", 21).unwrap_err().starts_with("Failed to parse Java major version"));
}

#[test]
fn fetch_loop_decisions() {
    assert_eq!(cached_input(false, (Some(10), Some(2_000_000), Some(3_000_000))), Some(1));
    assert_eq!(cached_input(true, (Some(2_000_000), None, None)), None);
    assert_eq!(cached_input(false, (Some(1_000_000), None, None)), None);
    assert_eq!(breaker_threshold(Some("5")), 5);
    assert_eq!(breaker_threshold(Some("x")), 3);
    assert_eq!(breaker_threshold(None), 3);
    assert!(uptodown_allowed(2, 3));
    assert!(!uptodown_allowed(3, 3));
    let mut app = plain_app();
    app.uptodown_url = Some("https://u".to_string());
    assert_eq!(source_attempt(&app, "apkmirror", false), SourceAttempt::NotApplicable);
    assert_eq!(source_attempt(&app, "uptodown", true), SourceAttempt::BreakerOpen);
    assert_eq!(source_attempt(&app, "uptodown", false), SourceAttempt::Uptodown);
    assert_eq!(source_attempt(&app, "apkpure", false), SourceAttempt::ApkPure);
    assert_eq!(source_attempt(&app, "fdroid", false), SourceAttempt::Unknown);
    assert_eq!(sources_exhausted("yt", "com.yt"), "yt: all download sources exhausted for package 'com.yt'");
    assert_eq!(cdn_referers("https://x.com/a", None), None);
    assert_eq!(
        cdn_referers("https://d.apkpure.com/b", Some("r")),
        Some(vec![Some("r".to_string()), Some("https://apkpure.com/".to_string()), Some("https://apkpure.net/".to_string()), None])
    );
    assert!(is_split_bundle(&vec!["base.apk".to_string(), "split_config.arm64_v8a.apk".to_string()]));
    assert!(is_split_bundle(&vec!["Split_x.APK".to_string()]));
    assert!(!is_split_bundle(&vec!["app.apk".to_string(), "icon.png".to_string()]));
    let es = vec![("a.apk".to_string(), 5u64), ("b.apk".to_string(), 9), ("c.apk".to_string(), 9), ("Base.apk".to_string(), 1)];
    assert_eq!(base_apk_index(&es), Some(3));
    assert_eq!(base_apk_index(&es[..3].to_vec()), Some(1));
    assert_eq!(base_apk_index(&vec![("x.txt".to_string(), 5)]), None);
}

#[test]
fn apkmirror_and_github_asset_choices() {
    let html = r#"<a href="/apk/g/yt/yt-19-1-0-release/">x</a><a href="/apk/g/yt/yt-19-2-0-beta-release/">y</a>"#;
    let links = page_links(r#"href="(/apk/[^"]+-release/)""#, html).unwrap();
    assert_eq!(links, vec!["/apk/g/yt/yt-19-1-0-release/", "/apk/g/yt/yt-19-2-0-beta-release/"]);
    assert_eq!(choose_apkmirror_release(&links, None, "page").unwrap(), "https://www.apkmirror.com/apk/g/yt/yt-19-1-0-release/");
    assert_eq!(
        choose_apkmirror_release(&links, Some("19.2.0-beta"), "page").unwrap(),
        "https://www.apkmirror.com/apk/g/yt/yt-19-2-0-beta-release/"
    );
    assert_eq!(choose_apkmirror_release(&vec![], None, "page"), Err("No release links found on page".to_string()));
    let betas = vec!["/apk/x-beta-release/".to_string()];
    assert_eq!(choose_apkmirror_release(&betas, None, "page"), Err("Only beta/alpha release links found on page".to_string()));
    let variants = vec!["/apk/v-armeabi-v7a/".to_string(), "/apk/v-arm64-v8a/".to_string()];
    assert_eq!(choose_apkmirror_variant(&variants, "arm64-v8a", "r").unwrap(), "https://www.apkmirror.com/apk/v-arm64-v8a/");
    assert_eq!(choose_apkmirror_variant(&variants, "x86", "r").unwrap(), "https://www.apkmirror.com/apk/v-armeabi-v7a/");
    assert_eq!(follow_link(&vec![], "download.php link", "p"), Err("No download.php link found on p".to_string()));
    let assets = vec![
        ("app-x86.apk".to_string(), Some("u/x86".to_string())),
        ("app-universal.apk".to_string(), Some("u/universal".to_string())),
        ("app-arm64.apk.sig".to_string(), Some("u/sig".to_string())),
        ("app-arm64-debug.apk".to_string(), Some("u/arm64-debug".to_string())),
    ];
    let ex = vec!["debug".to_string()];
    assert_eq!(choose_github_apk(&assets, "arm64", &ex).as_deref(), Some("u/universal"));
    assert_eq!(choose_github_apk(&assets, "x86", &ex).as_deref(), Some("u/x86"));
    assert_eq!(choose_github_apk(&vec![], "x86", &ex), None);
}

#[test]
fn base64_round_trip_examples() {
    assert_eq!(base64_decode("TWFu").unwrap(), b"Man".to_vec());
    assert_eq!(base64_decode("TWE=").unwrap(), b"Ma".to_vec());
    assert_eq!(base64_decode("T Q = =").unwrap(), b"M".to_vec());
    assert_eq!(base64_decode("AP8Q\nIA==").unwrap(), vec![0x00, 0xff, 0x10, 0x20]);
}

#[test]
fn breaker_counter_moves_with_outcomes() {
    assert_eq!(breaker_after(2, &Ok("x.apk".to_string())), 0);
    assert_eq!(breaker_after(2, &Err(UptodownError::TurnstileBlocked)), 3);
    assert_eq!(breaker_after(u32::MAX, &Err(UptodownError::TurnstileBlocked)), 0);
    assert_eq!(breaker_after(2, &Err(UptodownError::Network { message: "timeout".to_string() })), 2);
}

#[test]
fn report_of_a_whole_run_counts_each_status() {
    let item = |app: &str, status: &str| TestReportItem {
        app: app.to_string(),
        package: String::new(),
        status: status.to_string(),
        install_ms: None,
        launch_ms: None,
        reason: None,
    };
    let report = TestReport::from_items(vec![
        item("a", "passed"),
        item("b", "failed"),
        item("c", "passed"),
        item("d", "skipped"),
    ]);
    assert_eq!(report.items.len(), 4);
    assert_eq!((report.passed, report.failed, report.skipped), (2, 1, 1));
    assert_eq!(report.items[2].app, "c");
}
