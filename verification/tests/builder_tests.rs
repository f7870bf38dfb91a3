use revancex::builder::apkpure::{
    apkpure_app_target, apkpure_attempt_next, apkpure_download_pages, apkpure_endpoints, apkpure_referers, AttemptNext,
    extract_download_links, is_direct_apk_url, sort_links_by_arch,
};
use revancex::builder::apkpure_failure;
use revancex::builder::arch::should_strip;
use revancex::builder::lite::should_drop;
use revancex::builder::{
    choose_uptodown_version, extract_version_from_filename, input_apk_paths, is_beta_or_alpha,
    is_turnstile_blocked, is_uptodown_token, ApkpureError, UptodownError,
};

#[test]
fn test_apkpure_constructed_endpoints_generation() {
    let pkg = "com.flightradar24free";
    let target_ver = Some("11.10.0");
    let endpoints = apkpure_endpoints(pkg, target_ver);
    assert_eq!(endpoints.len(), 8);
    assert!(endpoints[0].contains("XAPK/com.flightradar24free?versionName=11.10.0"));
    assert!(endpoints[4].contains("XAPK/com.flightradar24free?version=latest"));
}

#[test]
fn apkpure_endpoints_encode_spaces_and_skip_versioned() {
    let e = apkpure_endpoints("p", Some("1 beta"));
    assert_eq!(e[1], "https://d.apkpure.com/b/APK/p?versionName=1+beta");
    assert_eq!(e[3], "https://d.apkpure.net/b/APK/p?versionName=1+beta");
    let latest = apkpure_endpoints("p", None);
    assert_eq!(latest.len(), 4);
    assert_eq!(latest[3], "https://d.apkpure.net/b/APK/p?version=latest");
}

#[test]
fn test_apkpure_referer_rotation_candidates() {
    let last_page = "https://apkpure.com/app/com.duolingo/download";
    let referer_candidates = apkpure_referers(last_page);
    assert_eq!(referer_candidates.len(), 4);
    assert_eq!(referer_candidates[0].as_deref(), Some(last_page));
    assert_eq!(referer_candidates[1].as_deref(), Some("https://apkpure.com/"));
    assert_eq!(referer_candidates[2].as_deref(), Some("https://apkpure.net/"));
    assert_eq!(referer_candidates[3], None);
}

#[test]
fn test_apkpure_link_scraping_and_arch_priority() {
    let html_fixture = r#"
        <div class="download-box">
            <a href="https://d.apkpure.com/b/XAPK/com.flightradar24free?versionCode=111000000&amp;nc=armeabi-v7a&amp;sv=29">Download V7A</a>
            <a href="https://d.apkpure.com/b/XAPK/com.flightradar24free?versionCode=111000000&amp;nc=arm64-v8a&amp;sv=32">Download V8A</a>
            <a href="https://d.apkpure.com/b/APK/com.flightradar24free?versionCode=111000000">Download Universal</a>
        </div>
    "#;
    let found_links = extract_download_links(html_fixture);
    assert_eq!(found_links.len(), 3);
    assert!(found_links[0].contains("&nc=armeabi-v7a"));
    assert!(found_links[1].contains("&nc=arm64-v8a"));
    let sorted = sort_links_by_arch(&found_links, "arm64-v8a");
    assert!(sorted[0].contains("arm64-v8a"));
    assert_eq!(sorted.len(), 3);
}

#[test]
fn apkpure_targets_and_pages() {
    let (url, pkg) = apkpure_app_target("com.duolingo");
    assert_eq!(url, "https://apkpure.com/app/com.duolingo");
    assert_eq!(pkg, "com.duolingo");
    let (url2, pkg2) = apkpure_app_target("https://apkpure.com/duolingo/com.duolingo/");
    assert_eq!(url2, "https://apkpure.com/duolingo/com.duolingo/");
    assert_eq!(pkg2, "com.duolingo");
    let pages = apkpure_download_pages(Some("https://apkpure.com/x/y"), Some("1.0 beta"));
    assert_eq!(pages, vec!["https://apkpure.com/x/y/download/1.0-beta".to_string(), "https://apkpure.com/x/y/download".to_string()]);
    assert!(apkpure_download_pages(None, Some("1")).is_empty());
    assert!(is_direct_apk_url("https://x/y.xapk"));
    assert!(!is_direct_apk_url("com.pkg.apk"));
}

#[test]
fn turnstile_detection_from_headers_and_body() {
    let ray = vec!["cf-ray".to_string()];
    assert!(is_turnstile_blocked(403, &ray, "<html></html>"));
    assert!(!is_turnstile_blocked(200, &ray, "<html></html>"));
    assert!(is_turnstile_blocked(200, &vec!["cf-mitigated".to_string()], ""));
    assert!(is_turnstile_blocked(200, &vec![], "<div class=\"cf-turnstile\"></div>"));
    assert!(!is_turnstile_blocked(200, &vec![], "<div data-url=\"abcdefghijkl\"></div>"));
}

#[test]
fn uptodown_choice_and_tokens() {
    let versions = vec!["2.0-beta".to_string(), "1.9.1".to_string(), "1.9.0".to_string()];
    assert_eq!(choose_uptodown_version(&versions, Some("1.9.0")), Some(2));
    assert_eq!(choose_uptodown_version(&versions, None), Some(1));
    assert_eq!(choose_uptodown_version(&versions, Some("2.0-beta")), Some(0));
    assert_eq!(choose_uptodown_version(&versions, Some("3.0")), Some(1));
    assert!(is_uptodown_token("abcdefghijkl"));
    assert!(!is_uptodown_token("https://dw.uptodown.com/x"));
    assert!(!is_uptodown_token("short"));
}

#[test]
fn pre_release_names_and_file_versions() {
    assert!(is_beta_or_alpha("YouTube-20.1-BETA.apk"));
    assert!(is_beta_or_alpha("alpha"));
    assert!(!is_beta_or_alpha("19.16.39"));
    assert_eq!(extract_version_from_filename("youtube-19.16.39-arm64.apk"), "19.16.39");
    assert_eq!(extract_version_from_filename("app-x-7.apkm"), "7");
    assert_eq!(extract_version_from_filename("noversion.apk"), "");
    assert_eq!(extract_version_from_filename("1.2-app.apk.apk"), "");
}

#[test]
fn arch_and_lite_entry_rules() {
    assert!(should_strip("lib/x86/libnative.so", "arm64-v8a"));
    assert!(!should_strip("lib/arm64-v8a/libnative.so", "arm64-v8a"));
    assert!(!should_strip("lib/riscv64/libnative.so", "arm64-v8a"));
    assert!(!should_strip("assets/lib/x86/a.so", "arm64-v8a"));
    assert!(should_drop("META-INF/CERT.RSA"));
    assert!(should_drop("build-data.properties"));
    assert!(should_drop("assets/dexopt/baseline.prof"));
    assert!(!should_drop("classes.dex"));
    assert!(!should_drop("META-INF/MANIFEST.MF"));
}

#[test]
fn input_paths_and_error_texts() {
    let (a, b, c) = input_apk_paths("./tmp", "yt", "");
    assert_eq!(a, "./tmp/yt-all-input.apk");
    assert_eq!(b, "./tmp/yt-all-input.apk");
    assert_eq!(c, "./tmp/yt-input.apk");
    let (a2, _, _) = input_apk_paths("./tmp", "yt", "arm64-v8a");
    assert_eq!(a2, "./tmp/yt-arm64-v8a-input.apk");
    assert_eq!(
        UptodownError::TokenNotFound { html_len: 12, snippet: "abc".to_string() }.message(),
        "Uptodown: data-url token not found (page 12 bytes); snippet: abc"
    );
    assert_eq!(ApkpureError::Forbidden { url: "u".to_string() }.message(), "apkpure: 403 pada u — kemungkinan Referer salah / rate-limit / IP diblokir");
}

#[test]
fn apkpure_failure_names_forbidden_link_or_package() {
    let forbidden = apkpure_failure(Some("https://d.apkpure.com/b/APK/x".to_string()), "com.example");
    assert_eq!(
        forbidden.message(),
        "apkpure: 403 pada https://d.apkpure.com/b/APK/x — kemungkinan Referer salah / rate-limit / IP diblokir"
    );
    let other = apkpure_failure(None, "com.example");
    assert_eq!(other.message(), "apkpure: APKPure download failed for com.example");
}

#[test]
fn apkpure_attempt_verdicts() {
    assert_eq!(apkpure_attempt_next(None, 2_000_000), AttemptNext::Accept);
    assert_eq!(apkpure_attempt_next(None, 1_000_000), AttemptNext::TooSmall);
    assert_eq!(apkpure_attempt_next(Some("HTTP status client error (403 Forbidden)"), 0), AttemptNext::Forbidden);
    assert_eq!(apkpure_attempt_next(Some("connection reset"), 5_000_000), AttemptNext::Failed);
}
