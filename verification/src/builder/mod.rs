//! Decisions of the APK fetcher: where inputs are cached, which version is
//! wanted, which sources are tried, and what a download page means.

pub mod apkmirror;
pub mod apkpure;
pub mod archive;
pub mod arch;
pub mod lite;
pub mod manifest;

use vstd::prelude::*;
use crate::config::apps::AppConfig;
use crate::text::{
    chars_of, contains, ends_with_in, lowercase_of, opt_string_view, push_dec, push_str, split,
    split_ranges, starts_with, str_contains, str_eq, str_starts_with, str_to_lowercase,
    str_views, string_from_str, string_of, strip_suffixes, strip_suffixes_end, utf8_width,
    vec_contains_str, dec, pieces, is_digit,
};
use crate::utils::semver::{max_version, is_last_max, views};

verus! {

/// Why an Uptodown download failed.
#[derive(Debug, Clone)]
pub enum UptodownError {
    TurnstileBlocked,
    TokenNotFound { html_len: usize, snippet: String },
    Network { message: String },
}

impl UptodownError {
    /// The error text.
    pub fn message(&self) -> (r: String)
        ensures
            r@ == match *self {
                UptodownError::TurnstileBlocked => "Uptodown: Cloudflare Turnstile challenge detected (domain globally blocked)"@,
                UptodownError::TokenNotFound { html_len, snippet } => "Uptodown: data-url token not found (page "@
                    + dec(html_len as nat) + " bytes); snippet: "@ + snippet@,
                UptodownError::Network { message } => "Uptodown: network error: "@ + message@,
            },
    {
        match self {
            UptodownError::TurnstileBlocked => string_from_str(
                "Uptodown: Cloudflare Turnstile challenge detected (domain globally blocked)",
            ),
            UptodownError::TokenNotFound { html_len, snippet } => {
                let mut s = string_from_str("Uptodown: data-url token not found (page ");
                push_dec(&mut s, *html_len as u64);
                push_str(&mut s, " bytes); snippet: ");
                push_str(&mut s, snippet.as_str());
                s
            },
            UptodownError::Network { message } => {
                let mut s = string_from_str("Uptodown: network error: ");
                push_str(&mut s, message.as_str());
                s
            },
        }
    }
}

/// Why an APKPure download failed.
#[derive(Debug, Clone)]
pub enum ApkpureError {
    Forbidden { url: String },
    Other { message: String },
}

impl ApkpureError {
    /// The error text.
    pub fn message(&self) -> (r: String)
        ensures
            r@ == match *self {
                ApkpureError::Forbidden { url } => "apkpure: 403 pada "@ + url@
                    + " — kemungkinan Referer salah / rate-limit / IP diblokir"@,
                ApkpureError::Other { message } => "apkpure: "@ + message@,
            },
    {
        match self {
            ApkpureError::Forbidden { url } => {
                let mut s = string_from_str("apkpure: 403 pada ");
                push_str(&mut s, url.as_str());
                push_str(&mut s, " — kemungkinan Referer salah / rate-limit / IP diblokir");
                s
            },
            ApkpureError::Other { message } => {
                let mut s = string_from_str("apkpure: ");
                push_str(&mut s, message.as_str());
                s
            },
        }
    }
}

/// How an APKPure attempt ends when no link delivered an APK: forbidden
/// on the last link refused with 403, else a failure naming the package.
pub fn apkpure_failure(last_forbidden: Option<String>, package: &str) -> (r: ApkpureError)
    ensures
        match last_forbidden {
            Some(u) => r matches ApkpureError::Forbidden { url } && url@ == u@,
            None => r matches ApkpureError::Other { message } && message@ == "APKPure download failed for "@ + package@,
        },
{
    match last_forbidden {
        Some(url) => ApkpureError::Forbidden { url },
        None => {
            let mut message = string_from_str("APKPure download failed for ");
            push_str(&mut message, package);
            ApkpureError::Other { message }
        },
    }
}

/// A response is a Cloudflare challenge: a `cf-mitigated` header, a 403 or
/// 503 with a `cf-ray` header, or challenge markers in the body.
pub open spec fn turnstile_blocked(status: u16, header_names: Seq<Seq<char>>, body: Seq<char>) -> bool {
    ||| header_names.contains("cf-mitigated"@)
    ||| (status == 403 || status == 503) && header_names.contains("cf-ray"@)
    ||| contains(body, "cf-turnstile"@)
    ||| contains(body, "challenges.cloudflare.com"@)
    ||| contains(body, "cf_chl_opt"@)
}

/// Whether a response is a Cloudflare Turnstile challenge. The header names
/// are given in lower case, as HTTP header maps keep them.
pub fn is_turnstile_blocked(status: u16, header_names: &Vec<String>, body: &str) -> (r: bool)
    ensures
        r == turnstile_blocked(status, str_views(header_names@), body@),
{
    if vec_contains_str(header_names, "cf-mitigated") {
        return true;
    }
    if (status == 403 || status == 503) && vec_contains_str(header_names, "cf-ray") {
        return true;
    }
    str_contains(body, "cf-turnstile") || str_contains(body, "challenges.cloudflare.com")
        || str_contains(body, "cf_chl_opt")
}

/// A pre-release name: `beta` or `alpha` in it, ignoring case.
pub open spec fn beta_or_alpha(s: Seq<char>) -> bool {
    contains(lowercase_of(s), "beta"@) || contains(lowercase_of(s), "alpha"@)
}

/// Whether a version or file name marks a beta or alpha build.
pub fn is_beta_or_alpha(s: &str) -> (r: bool)
    ensures
        r == beta_or_alpha(s@),
{
    let lower = str_to_lowercase(s);
    str_contains(lower.as_str(), "beta") || str_contains(lower.as_str(), "alpha")
}

/// The version in a file name such as `app-1.2.3-arm64.apk`: the first
/// `-`-separated part after the first that starts with a digit, the name
/// stripped of trailing `.apkm` and then `.apk`; empty when there is none.
pub open spec fn filename_version(f: Seq<char>) -> Seq<char> {
    let stem = strip_suffixes(strip_suffixes(f, ".apkm"@), ".apk"@);
    first_numeric_part(split(stem, seq!['-'], false), 1)
}

/// The first part from index `k` on that starts with an ASCII digit.
pub open spec fn first_numeric_part(parts: Seq<Seq<char>>, k: int) -> Seq<char>
    decreases parts.len() - k,
{
    if k < 0 || k >= parts.len() {
        seq![]
    } else if parts[k].len() > 0 && is_digit(parts[k][0]) {
        parts[k]
    } else {
        first_numeric_part(parts, k + 1)
    }
}

/// The version in an archive file name, or an empty string.
pub fn extract_version_from_filename(filename: &str) -> (r: String)
    ensures
        r@ == filename_version(filename@),
{
    let v = chars_of(filename);
    let apkm = chars_of(".apkm");
    let apk = chars_of(".apk");
    let e1 = strip_suffixes_end(v.as_slice(), 0, v.len(), apkm.as_slice());
    let e2 = strip_suffixes_end(v.as_slice(), 0, e1, apk.as_slice());
    assert(v@.subrange(0, v@.len() as int) =~= v@);
    let dash: [char; 1] = ['-'];
    assert(dash@ =~= seq!['-']);
    let rs = split_ranges(v.as_slice(), 0, e2, dash.as_slice(), false);
    let ghost parts = pieces(v@, rs@);
    assert(v@.subrange(0, e2 as int) == strip_suffixes(strip_suffixes(filename@, ".apkm"@), ".apk"@));
    let mut k: usize = 1;
    while k < rs.len()
        invariant
            1 <= k,
            parts == pieces(v@, rs@),
            parts == split(v@.subrange(0, e2 as int), seq!['-'], false),
            crate::text::ranges_within(rs@, 0, e2 as int),
            e2 <= v@.len(),
            first_numeric_part(parts, 1) == first_numeric_part(parts, k as int),
            v@.subrange(0, e2 as int) == strip_suffixes(strip_suffixes(filename@, ".apkm"@), ".apk"@),
        decreases rs.len() - k,
    {
        let (a, b) = rs[k];
        proof {
            assert(0 <= rs@[k as int].0 <= rs@[k as int].1 <= e2);
            assert(parts[k as int] == v@.subrange(a as int, b as int));
        }
        if a < b && '0' <= v[a] && v[a] <= '9' {
            assert(parts[k as int][0] == v@[a as int]);
            assert(first_numeric_part(parts, k as int) == parts[k as int]);
            return string_of(v.as_slice(), a, b);
        }
        k += 1;
    }
    String::new()
}

// ---------------------------------------------------------------------
// Which input APK, which version, which sources
// ---------------------------------------------------------------------

/// The arch label of cached inputs: `all` for no or every arch.
pub open spec fn arch_tag(arch: Seq<char>) -> Seq<char> {
    if arch == "all"@ || arch.len() == 0 {
        "all"@
    } else {
        arch
    }
}

/// The cached input files of an app, in the order they are reused: for the
/// arch, universal, and the name without an arch.
pub fn input_apk_paths(temp_dir: &str, id: &str, arch: &str) -> (r: (String, String, String))
    ensures
        r.0@ == temp_dir@ + "/"@ + id@ + "-"@ + arch_tag(arch@) + "-input.apk"@,
        r.1@ == temp_dir@ + "/"@ + id@ + "-all-input.apk"@,
        r.2@ == temp_dir@ + "/"@ + id@ + "-input.apk"@,
{
    let tag = if str_eq(arch, "all") || arch.unicode_len() == 0 {
        "all"
    } else {
        arch
    };
    let mut dest = string_from_str(temp_dir);
    push_str(&mut dest, "/");
    push_str(&mut dest, id);
    push_str(&mut dest, "-");
    push_str(&mut dest, tag);
    push_str(&mut dest, "-input.apk");
    let mut all = string_from_str(temp_dir);
    push_str(&mut all, "/");
    push_str(&mut all, id);
    push_str(&mut all, "-all-input.apk");
    let mut legacy = string_from_str(temp_dir);
    push_str(&mut legacy, "/");
    push_str(&mut legacy, id);
    push_str(&mut legacy, "-input.apk");
    (dest, all, legacy)
}

/// The version the app pins: its `version`, else `max_version`, else `min_version`.
pub open spec fn configured_version(app: AppConfig) -> Option<Seq<char>> {
    match opt_string_view(app.version) {
        Some(v) => Some(v),
        None => match opt_string_view(app.max_version) {
            Some(v) => Some(v),
            None => opt_string_view(app.min_version),
        },
    }
}

/// The version to fetch: the pinned one, unless it is absent or `auto`, in
/// which case the newest version the patches support (the last of the
/// highest, in the order given).
pub fn target_version(app: &AppConfig, supported: &Vec<String>) -> (r: Option<String>)
    ensures
        match configured_version(*app) {
            Some(v) => v != "auto"@ ==> (r matches Some(s) && s@ == v),
            None => true,
        },
        (configured_version(*app) is None || configured_version(*app) == Some("auto"@)) ==> match r {
            Some(s) => exists|i: int| 0 <= i < supported@.len() && is_last_max(str_views(supported@), i) && s@ == supported@[i]@,
            None => supported@.len() == 0,
        },
{
    let configured: Option<&String> = match &app.version {
        Some(v) => Some(v),
        None => match &app.max_version {
            Some(v) => Some(v),
            None => match &app.min_version {
                Some(v) => Some(v),
                None => None,
            },
        },
    };
    match configured {
        Some(v) => {
            if !str_eq(v.as_str(), "auto") {
                return Some(string_from_str(v.as_str()));
            }
        },
        None => {},
    }
    let mut refs: Vec<&str> = Vec::new();
    let mut i: usize = 0;
    while i < supported.len()
        invariant
            i <= supported@.len(),
            refs@.len() == i,
            forall|j: int| 0 <= j < i ==> (#[trigger] refs@[j])@ == supported@[j]@,
        decreases supported.len() - i,
    {
        refs.push(supported[i].as_str());
        i += 1;
    }
    assert(views(refs@) =~= str_views(supported@));
    max_version(refs.as_slice())
}

/// The source order when an app gives none.
pub open spec fn default_sources() -> Seq<Seq<char>> {
    seq!["apkmirror"@, "uptodown"@, "apkpure"@, "apkeep"@]
}

/// The download sources to try, in order.
pub fn source_order(app: &AppConfig) -> (r: Vec<String>)
    ensures
        str_views(r@) == if app.source_priority@.len() == 0 {
            default_sources()
        } else {
            str_views(app.source_priority@)
        },
{
    if app.source_priority.len() == 0 {
        let mut v: Vec<String> = Vec::new();
        v.push(string_from_str("apkmirror"));
        v.push(string_from_str("uptodown"));
        v.push(string_from_str("apkpure"));
        v.push(string_from_str("apkeep"));
        assert(str_views(v@) =~= default_sources());
        v
    } else {
        crate::text::clone_strings(&app.source_priority)
    }
}

/// The Uptodown breaker's count of consecutive challenges after an
/// Uptodown attempt ends with `outcome`: back to 0 when the APK arrived,
/// one more (wrapping, as an atomic add does) on a Cloudflare challenge,
/// unchanged on any other failure.
pub fn breaker_after(count: u32, outcome: &Result<String, UptodownError>) -> (r: u32)
    ensures
        r == match outcome {
            Ok(_) => 0,
            Err(UptodownError::TurnstileBlocked) => if count == u32::MAX {
                0
            } else {
                (count + 1) as u32
            },
            Err(_) => count,
        },
{
    match outcome {
        Ok(_) => 0,
        Err(UptodownError::TurnstileBlocked) => if count == u32::MAX {
            0
        } else {
            count + 1
        },
        Err(_) => count,
    }
}

/// Whether Uptodown is still worth trying after `failures` consecutive
/// challenges, given the breaker's threshold.
pub fn uptodown_allowed(failures: u32, threshold: u32) -> (r: bool)
    ensures
        r == (failures < threshold),
{
    failures < threshold
}

/// Whether an `apk_url` names a GitHub release, to be resolved to an asset.
pub fn is_github_release_url(url: &str) -> (r: bool)
    ensures
        r == (contains(url@, "github.com"@) && contains(url@, "/releases/"@)),
{
    str_contains(url, "github.com") && str_contains(url, "/releases/")
}

// ---------------------------------------------------------------------
// Uptodown
// ---------------------------------------------------------------------

/// Whether the version listing `v` may be taken.
pub open spec fn uptodown_eligible(allow_beta: bool, v: Seq<char>) -> bool {
    allow_beta || !beta_or_alpha(v)
}

/// The part of a version before its first `-`.
pub open spec fn base_version(v: Seq<char>) -> Seq<char> {
    split(v, seq!['-'], false)[0]
}

/// The first index at or after `k` whose version satisfies `p`.
pub open spec fn first_index(vs: Seq<Seq<char>>, p: spec_fn(Seq<char>) -> bool, k: int) -> Option<int>
    decreases vs.len() - k,
{
    if k < 0 || k >= vs.len() {
        None
    } else if p(vs[k]) {
        Some(k)
    } else {
        first_index(vs, p, k + 1)
    }
}

/// Uptodown versions that may be taken and match the target.
pub open spec fn uptodown_match(allow_beta: bool, ver: Seq<char>) -> spec_fn(Seq<char>) -> bool {
    |v: Seq<char>| uptodown_eligible(allow_beta, v) && (contains(v, ver) || contains(v, base_version(ver)))
}

/// Uptodown versions that may be taken.
pub open spec fn uptodown_any(allow_beta: bool) -> spec_fn(Seq<char>) -> bool {
    |v: Seq<char>| uptodown_eligible(allow_beta, v)
}

/// Which listed Uptodown version to download: the first that matches the
/// target (or its part before `-`), else the first that may be taken;
/// betas and alphas only when the target is one.
pub open spec fn uptodown_choice(vs: Seq<Seq<char>>, target: Option<Seq<char>>) -> Option<int> {
    let allow_beta = target is Some && beta_or_alpha(target->0);
    match target {
        Some(ver) => match first_index(vs, uptodown_match(allow_beta, ver), 0) {
            Some(i) => Some(i),
            None => first_index(vs, uptodown_any(allow_beta), 0),
        },
        None => first_index(vs, uptodown_any(allow_beta), 0),
    }
}

/// The first `-`-separated part of `v`.
pub(crate) fn base_of(v: &str) -> (r: String)
    ensures
        r@ == base_version(v@),
{
    let cs = chars_of(v);
    let dash: [char; 1] = ['-'];
    assert(dash@ =~= seq!['-']);
    let rs = split_ranges(cs.as_slice(), 0, cs.len(), dash.as_slice(), false);
    assert(cs@.subrange(0, cs@.len() as int) =~= cs@);
    assert(split(cs@, seq!['-'], false).len() >= 1);
    assert(pieces(cs@, rs@).len() == rs@.len());
    let (a, b) = rs[0];
    proof {
        assert(pieces(cs@, rs@)[0] == cs@.subrange(a as int, b as int));
    }
    string_of(cs.as_slice(), a, b)
}

proof fn lemma_first_index_at(vs: Seq<Seq<char>>, p: spec_fn(Seq<char>) -> bool, k: int, j: int)
    requires
        0 <= k <= j <= vs.len(),
        forall|i: int| k <= i < j ==> !p(#[trigger] vs[i]),
    ensures
        first_index(vs, p, k) == first_index(vs, p, j),
    decreases j - k,
{
    if k < j {
        lemma_first_index_at(vs, p, k + 1, j);
    }
}

/// The index of the Uptodown version to download.
pub fn choose_uptodown_version(versions: &Vec<String>, target: Option<&str>) -> (r: Option<usize>)
    ensures
        match r {
            Some(i) => uptodown_choice(str_views(versions@), opt_str(target)) == Some(i as int),
            None => uptodown_choice(str_views(versions@), opt_str(target)) is None,
        },
{
    let ghost vs = str_views(versions@);
    let allow_beta = match target {
        Some(t) => is_beta_or_alpha(t),
        None => false,
    };
    assert(allow_beta == (opt_str(target) is Some && beta_or_alpha(opt_str(target)->0)));
    let mut eligible: Vec<bool> = Vec::new();
    let mut i: usize = 0;
    while i < versions.len()
        invariant
            i <= versions@.len(),
            vs == str_views(versions@),
            eligible@.len() == i,
            forall|j: int| 0 <= j < i ==> eligible@[j] == uptodown_eligible(allow_beta, #[trigger] vs[j]),
        decreases versions.len() - i,
    {
        let b = is_beta_or_alpha(versions[i].as_str());
        eligible.push(allow_beta || !b);
        i += 1;
    }
    if target.is_some() {
        let ver = target.unwrap();
        let base = base_of(ver);
        let mut k: usize = 0;
        while k < versions.len()
            invariant
                k <= versions@.len(),
                vs == str_views(versions@),
                eligible@.len() == versions@.len(),
                forall|j: int| 0 <= j < versions@.len() ==> eligible@[j] == uptodown_eligible(allow_beta, #[trigger] vs[j]),
                forall|j: int| 0 <= j < k ==> !uptodown_match(allow_beta, ver@)(#[trigger] vs[j]),
                opt_str(target) == Some(ver@),
                base@ == base_version(ver@),
                allow_beta == (opt_str(target) is Some && beta_or_alpha(opt_str(target)->0)),
            decreases versions.len() - k,
        {
            let v = versions[k].as_str();
            assert(vs[k as int] == v@);
            assert(uptodown_match(allow_beta, ver@)(vs[k as int]) == (uptodown_eligible(allow_beta, vs[k as int])
                && (contains(vs[k as int], ver@) || contains(vs[k as int], base_version(ver@)))));
            if eligible[k] && (str_contains(v, ver) || str_contains(v, base.as_str())) {
                proof {
                    lemma_first_index_at(vs, uptodown_match(allow_beta, ver@), 0, k as int);
                }
                return Some(k);
            }
            k += 1;
        }
        proof {
            lemma_first_index_at(vs, uptodown_match(allow_beta, ver@), 0, k as int);
        }
    }
    let mut k: usize = 0;
    while k < versions.len()
        invariant
            k <= versions@.len(),
            vs == str_views(versions@),
            eligible@.len() == versions@.len(),
            forall|j: int| 0 <= j < versions@.len() ==> eligible@[j] == uptodown_eligible(allow_beta, #[trigger] vs[j]),
            forall|j: int| 0 <= j < k ==> !uptodown_any(allow_beta)(#[trigger] vs[j]),
            allow_beta == (opt_str(target) is Some && beta_or_alpha(opt_str(target)->0)),
            opt_str(target) matches Some(t) ==> first_index(vs, uptodown_match(allow_beta, t), 0) is None,
        decreases versions.len() - k,
    {
        assert(uptodown_any(allow_beta)(vs[k as int]) == uptodown_eligible(allow_beta, vs[k as int]));
        if eligible[k] {
            proof {
                lemma_first_index_at(vs, uptodown_any(allow_beta), 0, k as int);
            }
            return Some(k);
        }
        k += 1;
    }
    proof {
        lemma_first_index_at(vs, uptodown_any(allow_beta), 0, k as int);
    }
    None
}

/// An optional string slice taken by view.
pub open spec fn opt_str(o: Option<&str>) -> Option<Seq<char>> {
    match o {
        Some(s) => Some(s@),
        None => None,
    }
}

/// Whether a `data-url` value is a download token: not a URL, and longer
/// than ten bytes.
pub fn is_uptodown_token(token: &str) -> (r: bool)
    ensures
        r == (!starts_with(token@, "http"@) && utf8_width(token@) > 10),
{
    if str_starts_with(token, "http") {
        return false;
    }
    let v = chars_of(token);
    let mut n: usize = 0;
    let mut i: usize = 0;
    while i < v.len() && n <= 10
        invariant
            i <= v@.len(),
            v@ == token@,
            n == utf8_width(token@.take(i as int)),
            n <= 14,
        decreases v.len() - i,
    {
        let u = v[i] as u32;
        let w: usize = if u < 0x80 {
            1
        } else if u < 0x800 {
            2
        } else if u < 0x10000 {
            3
        } else {
            4
        };
        assert(token@.take(i + 1).drop_last() =~= token@.take(i as int));
        n = n + w;
        i += 1;
    }
    proof {
        if n <= 10 {
            assert(token@.take(i as int) =~= token@);
        } else {
            crate::text::lemma_utf8_width_append(token@.take(i as int), token@.skip(i as int));
            assert(token@.take(i as int) + token@.skip(i as int) =~= token@);
        }
    }
    n > 10
}

} // verus!

verus! {

// ---------------------------------------------------------------------
// The fetch loop
// ---------------------------------------------------------------------

/// The cached input a build reuses, unless it is forced to fetch again: the
/// first of the arch, universal and plain inputs (see
/// [`input_apk_paths`]) whose size is known and above 1 MB.
pub fn cached_input(force: bool, sizes: (Option<u64>, Option<u64>, Option<u64>)) -> (r: Option<u8>)
    ensures
        force ==> r is None,
        !force ==> r == (if sizes.0 matches Some(s) && s > 1_000_000 {
            Some(0u8)
        } else if sizes.1 matches Some(s) && s > 1_000_000 {
            Some(1u8)
        } else if sizes.2 matches Some(s) && s > 1_000_000 {
            Some(2u8)
        } else {
            None
        }),
{
    if force {
        return None;
    }
    if let Some(s) = sizes.0 {
        if s > 1_000_000 {
            return Some(0);
        }
    }
    if let Some(s) = sizes.1 {
        if s > 1_000_000 {
            return Some(1);
        }
    }
    if let Some(s) = sizes.2 {
        if s > 1_000_000 {
            return Some(2);
        }
    }
    None
}

/// The Uptodown breaker's threshold from `REVANCEX_UTD_CB_THRESHOLD`: its
/// value as a number, else 3.
pub fn breaker_threshold(env_value: Option<&str>) -> (r: u32)
    ensures
        r == (match opt_str(env_value) {
            Some(v) => match crate::text::parse_u32(v) {
                Some(n) => n,
                None => 3,
            },
            None => 3,
        }),
{
    match env_value {
        Some(v) => match crate::text::str_parse_u64(v) {
            Some(n) => {
                if n <= 0xffff_ffffu64 {
                    n as u32
                } else {
                    3
                }
            },
            None => 3,
        },
        None => 3,
    }
}

/// What the fetch loop does with one named source.
#[derive(Debug, Clone, Copy, PartialEq, Eq, Structural)]
pub enum SourceAttempt {
    ApkMirror,
    Uptodown,
    ApkPure,
    Apkeep,
    /// The source does not apply to this app (no URL, or no package).
    NotApplicable,
    /// Uptodown is skipped: its breaker is open.
    BreakerOpen,
    /// No such source.
    Unknown,
}

/// The attempt source `name` makes for an app: APKMirror and Uptodown need
/// their URL (Uptodown also a closed breaker); APKPure and apkeep need the
/// package.
pub open spec fn source_attempt_of(app: AppConfig, name: Seq<char>, breaker_open: bool) -> SourceAttempt {
    if name == "apkmirror"@ {
        if app.apkmirror_url is Some {
            SourceAttempt::ApkMirror
        } else {
            SourceAttempt::NotApplicable
        }
    } else if name == "uptodown"@ {
        if app.uptodown_url is None {
            SourceAttempt::NotApplicable
        } else if breaker_open {
            SourceAttempt::BreakerOpen
        } else {
            SourceAttempt::Uptodown
        }
    } else if name == "apkpure"@ {
        if app.package@.len() > 0 {
            SourceAttempt::ApkPure
        } else {
            SourceAttempt::NotApplicable
        }
    } else if name == "apkeep"@ {
        if app.package@.len() > 0 {
            SourceAttempt::Apkeep
        } else {
            SourceAttempt::NotApplicable
        }
    } else {
        SourceAttempt::Unknown
    }
}

/// The attempt a named source makes.
pub fn source_attempt(app: &AppConfig, name: &str, breaker_open: bool) -> (r: SourceAttempt)
    ensures
        r == source_attempt_of(*app, name@, breaker_open),
{
    if str_eq(name, "apkmirror") {
        if app.apkmirror_url.is_some() {
            SourceAttempt::ApkMirror
        } else {
            SourceAttempt::NotApplicable
        }
    } else if str_eq(name, "uptodown") {
        if app.uptodown_url.is_none() {
            SourceAttempt::NotApplicable
        } else if breaker_open {
            SourceAttempt::BreakerOpen
        } else {
            SourceAttempt::Uptodown
        }
    } else if str_eq(name, "apkpure") {
        if app.package.as_str().unicode_len() > 0 {
            SourceAttempt::ApkPure
        } else {
            SourceAttempt::NotApplicable
        }
    } else if str_eq(name, "apkeep") {
        if app.package.as_str().unicode_len() > 0 {
            SourceAttempt::Apkeep
        } else {
            SourceAttempt::NotApplicable
        }
    } else {
        SourceAttempt::Unknown
    }
}

/// The error once every source has failed.
pub fn sources_exhausted(id: &str, package: &str) -> (r: String)
    ensures
        r@ == id@ + ": all download sources exhausted for package '"@ + package@ + "'"@,
{
    let mut m = string_from_str(id);
    push_str(&mut m, ": all download sources exhausted for package '");
    push_str(&mut m, package);
    push_str(&mut m, "'");
    m
}

/// The referers an APKPure CDN link is resolved with, in order: the given
/// one, the two APKPure front pages, then none. Only `d.apkpure.` links are
/// resolved (`None` for the others).
pub fn cdn_referers(url: &str, referer: Option<&str>) -> (r: Option<Vec<Option<String>>>)
    ensures
        !contains(url@, "d.apkpure."@) ==> r is None,
        contains(url@, "d.apkpure."@) ==> (r matches Some(v) && v@.map_values(|x: Option<String>| opt_string_view(x))
            == seq![opt_str(referer), Some("https://apkpure.com/"@), Some("https://apkpure.net/"@), None]),
{
    if !str_contains(url, "d.apkpure.") {
        return None;
    }
    let mut v: Vec<Option<String>> = Vec::new();
    v.push(match referer {
        Some(x) => Some(string_from_str(x)),
        None => None,
    });
    v.push(Some(string_from_str("https://apkpure.com/")));
    v.push(Some(string_from_str("https://apkpure.net/")));
    v.push(None);
    assert(v@.map_values(|x: Option<String>| opt_string_view(x)) =~= seq![
        opt_str(referer),
        Some("https://apkpure.com/"@),
        Some("https://apkpure.net/"@),
        None,
    ]);
    Some(v)
}

// ---------------------------------------------------------------------
// Bundles of split APKs
// ---------------------------------------------------------------------

/// A ZIP of split APKs, by its entry names (compared lower-cased): more
/// than one APK, or an APK named as a split (`split_` first, or `.config.`
/// in it).
pub open spec fn split_bundle_names(names: Seq<Seq<char>>) -> bool {
    let apks = names.map_values(|n: Seq<char>| lowercase_of(n)).filter(|n: Seq<char>| crate::text::ends_with(n, ".apk"@));
    apks.len() > 1 || exists|k: int| 0 <= k < apks.len() && (starts_with(#[trigger] apks[k], "split_"@) || contains(apks[k], ".config."@))
}

/// Whether a ZIP with these entry names is a bundle of split APKs.
pub fn is_split_bundle(names: &Vec<String>) -> (r: bool)
    ensures
        r == split_bundle_names(str_views(names@)),
{
    let ghost lows = str_views(names@).map_values(|n: Seq<char>| lowercase_of(n));
    let ghost isapk = |n: Seq<char>| crate::text::ends_with(n, ".apk"@);
    let mut count: usize = 0;
    let mut i: usize = 0;
    proof {
        reveal(Seq::filter);
        assert(lows.take(0).filter(isapk) =~= Seq::<Seq<char>>::empty());
    }
    while i < names.len()
        invariant
            i <= names@.len(),
            lows == str_views(names@).map_values(|n: Seq<char>| lowercase_of(n)),
            isapk == (|n: Seq<char>| crate::text::ends_with(n, ".apk"@)),
            count == lows.take(i as int).filter(isapk).len(),
            count <= 1,
            count <= i,
            forall|k: int| 0 <= k < lows.take(i as int).filter(isapk).len() ==> !(starts_with(
                #[trigger] lows.take(i as int).filter(isapk)[k],
                "split_"@,
            ) || contains(lows.take(i as int).filter(isapk)[k], ".config."@)),
        decreases names.len() - i,
    {
        let name = str_to_lowercase(names[i].as_str());
        proof {
            assert(lows[i as int] == name@);
            assert(lows.take(i + 1) =~= lows.take(i as int).push(lows[i as int]));
            lows.take(i as int).lemma_filter_push(lows[i as int], isapk);
        }
        if crate::text::str_ends_with(name.as_str(), ".apk") {
            let ghost f0 = lows.take(i as int).filter(isapk);
            let ghost f1 = lows.take(i + 1).filter(isapk);
            assert(f1 == f0.push(name@));
            if count + 1 > 1 || str_starts_with(name.as_str(), "split_") || str_contains(name.as_str(), ".config.") {
                proof {
                    let apks = str_views(names@).map_values(|n: Seq<char>| lowercase_of(n)).filter(isapk);
                    assert(lows.take(i + 1) =~= lows.subrange(0, i + 1));
                    lemma_filter_prefix(lows, isapk, i + 1);
                    if count + 1 > 1 {
                        assert(apks.len() >= f1.len());
                    } else {
                        assert(f1[f0.len() as int] == name@);
                        assert(lows.take(i + 1).filter(isapk)[f0.len() as int] == name@);
                        assert(apks[f0.len() as int] == name@);
                    }
                }
                return true;
            }
            count = count + 1;
        }
        i += 1;
    }
    assert(lows.take(names@.len() as int) =~= lows);
    false
}

/// Filtering a prefix gives a prefix of the filtered sequence.
proof fn lemma_filter_prefix(s: Seq<Seq<char>>, p: spec_fn(Seq<char>) -> bool, n: int)
    requires
        0 <= n <= s.len(),
    ensures
        s.take(n).filter(p).len() <= s.filter(p).len(),
        forall|k: int| 0 <= k < s.take(n).filter(p).len() ==> s.filter(p)[k] == #[trigger] s.take(n).filter(p)[k],
    decreases s.len() - n,
{
    if n < s.len() {
        lemma_filter_prefix(s, p, n + 1);
        assert(s.take(n + 1) =~= s.take(n).push(s[n]));
        s.take(n).lemma_filter_push(s[n], p);
        assert forall|k: int| 0 <= k < s.take(n).filter(p).len() implies s.filter(p)[k] == #[trigger] s.take(n).filter(p)[k] by {
            assert(s.take(n + 1).filter(p)[k] == s.take(n).filter(p)[k]);
        }
    } else {
        assert(s.take(n) =~= s);
    }
}

/// The APK taken out of a bundle when its splits cannot be merged, by the
/// entries' names and sizes: the first named `base.apk` (lower-cased), else
/// the first of the largest APKs larger than nothing.
pub open spec fn base_apk_choice(es: Seq<(Seq<char>, u64)>) -> Option<int>
    decreases es.len(),
{
    base_apk_from(es, 0, None, 0)
}

/// The choice from entry `i` on, with the best so far and its size.
pub open spec fn base_apk_from(es: Seq<(Seq<char>, u64)>, i: int, best: Option<int>, max: u64) -> Option<int>
    decreases es.len() - i,
{
    if i < 0 || i >= es.len() {
        best
    } else {
        let n = lowercase_of(es[i].0);
        if !crate::text::ends_with(n, ".apk"@) {
            base_apk_from(es, i + 1, best, max)
        } else if crate::text::ends_with(n, "base.apk"@) {
            Some(i)
        } else if es[i].1 > max {
            base_apk_from(es, i + 1, Some(i), es[i].1)
        } else {
            base_apk_from(es, i + 1, best, max)
        }
    }
}

/// The entry to extract as the base APK of a bundle; none when it holds no
/// APK.
pub fn base_apk_index(entries: &Vec<(String, u64)>) -> (r: Option<usize>)
    ensures
        match r {
            Some(i) => base_apk_choice(entries@.map_values(|e: (String, u64)| (e.0@, e.1))) == Some(i as int),
            None => base_apk_choice(entries@.map_values(|e: (String, u64)| (e.0@, e.1))) is None,
        },
{
    let ghost es = entries@.map_values(|e: (String, u64)| (e.0@, e.1));
    let mut best: Option<usize> = None;
    let mut max: u64 = 0;
    let mut i: usize = 0;
    while i < entries.len()
        invariant
            i <= entries@.len(),
            es == entries@.map_values(|e: (String, u64)| (e.0@, e.1)),
            best matches Some(b) ==> b < i,
            base_apk_from(es, i as int, match best {
                Some(b) => Some(b as int),
                None => None,
            }, max) == base_apk_choice(es),
        decreases entries.len() - i,
    {
        let name = str_to_lowercase(entries[i].0.as_str());
        assert(es[i as int] == (entries@[i as int].0@, entries@[i as int].1));
        if crate::text::str_ends_with(name.as_str(), ".apk") {
            if crate::text::str_ends_with(name.as_str(), "base.apk") {
                return Some(i);
            }
            if entries[i].1 > max {
                max = entries[i].1;
                best = Some(i);
            }
        }
        i += 1;
    }
    best
}

} // verus!

verus! {

/// The app code on an Uptodown versions page (the first `data-code` of the
/// `detail-app-name` element).
pub fn uptodown_data_code(html: &str) -> (r: Option<String>)
    ensures
        ({
            let p = "id=\"detail-app-name\"[^>]*data-code=\"([0-9]+)\""@;
            let caps = crate::pattern::regex_group_ones(p, html@);
            if crate::pattern::regex_compiles(p) && caps.len() > 0 {
                r matches Some(c) && c@ == caps[0]
            } else {
                r is None
            }
        }),
{
    match crate::builder::apkmirror::page_links("id=\"detail-app-name\"[^>]*data-code=\"([0-9]+)\"", html) {
        Some(caps) => {
            if caps.len() > 0 {
                assert(str_views(caps@)[0] == caps@[0]@);
                Some(string_from_str(caps[0].as_str()))
            } else {
                None
            }
        },
        None => None,
    }
}

/// The direct download behind an Uptodown download page: the first
/// `data-url` value, when it is a token, on Uptodown's download host.
pub fn uptodown_direct_url(html: &str) -> (r: Option<String>)
    ensures
        ({
            let p = "data-url=\"([^\"]+)\""@;
            let caps = crate::pattern::regex_group_ones(p, html@);
            if crate::pattern::regex_compiles(p) && caps.len() > 0 && !starts_with(caps[0], "http"@)
                && utf8_width(caps[0]) > 10 {
                r matches Some(u) && u@ == "https://dw.uptodown.com/dwn/"@ + caps[0]
            } else {
                r is None
            }
        }),
{
    match crate::builder::apkmirror::page_links("data-url=\"([^\"]+)\"", html) {
        Some(caps) => {
            if caps.len() > 0 {
                assert(str_views(caps@)[0] == caps@[0]@);
                if is_uptodown_token(caps[0].as_str()) {
                    let mut u = string_from_str("https://dw.uptodown.com/dwn/");
                    push_str(&mut u, caps[0].as_str());
                    return Some(u);
                }
            }
            None
        },
        None => None,
    }
}

} // verus!
