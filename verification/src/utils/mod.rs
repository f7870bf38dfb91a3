//! Helpers shared by the build pipeline.

pub mod semver;
pub mod version_order;
pub mod zip;
pub mod apk;
pub mod doctor;
pub mod github;
pub mod keystore;

use vstd::prelude::*;
use crate::text::{
    chars_of, find, find_in, line_ranges, lines, parse_u32, parse_uint_in, pieces, ranges_within,
    split, split_ranges, str_trim, string_from_str, trim, utf8_len, utf8_width,
};

verus! {

/// The Java version that one line of `java -version` output names: `None`
/// when the line holds no `version "` with a closing quote after it, else
/// the parse of the major component (the second one for `1.x`).
pub open spec fn java_line_version(line: Seq<char>) -> Option<Option<u32>> {
    match find(line, "version \""@) {
        Some(idx) => {
            let rest = line.skip(idx + "version \""@.len());
            match find(rest, "\""@) {
                Some(e) => {
                    let parts = split(rest.take(e), seq!['.'], false);
                    Some(
                        if parts[0] == "1"@ && parts.len() > 1 {
                            parse_u32(parts[1])
                        } else {
                            parse_u32(parts[0])
                        },
                    )
                },
                None => None,
            }
        },
        None => None,
    }
}

/// The Java major version named by the first line that names one.
pub open spec fn java_major(ls: Seq<Seq<char>>) -> Option<u32>
    decreases ls.len(),
{
    if ls.len() == 0 {
        None
    } else {
        match java_line_version(ls[0]) {
            Some(r) => r,
            None => java_major(ls.drop_first()),
        }
    }
}

proof fn lemma_java_major_at(ls: Seq<Seq<char>>, k: int)
    requires
        0 <= k <= ls.len(),
        forall|j: int| 0 <= j < k ==> java_line_version(#[trigger] ls[j]) is None,
    ensures
        java_major(ls) == if k == ls.len() {
            None
        } else {
            match java_line_version(ls[k]) {
                Some(r) => r,
                None => java_major(ls.skip(k + 1)),
            }
        },
    decreases k,
{
    if k > 0 {
        assert(java_line_version(ls[0]) is None);
        assert forall|j: int| 0 <= j < k - 1 implies java_line_version(#[trigger] ls.drop_first()[j]) is None by {
            assert(ls.drop_first()[j] == ls[j + 1]);
        }
        lemma_java_major_at(ls.drop_first(), k - 1);
        if k < ls.len() {
            assert(ls.drop_first().skip(k) =~= ls.skip(k + 1));
        }
    } else if ls.len() > 0 {
        assert(ls.skip(1) =~= ls.drop_first());
    }
}

/// What one line `v[lo..hi]` says of the Java version.
fn java_line(v: &[char], lo: usize, hi: usize, marker: &[char], quote: &[char]) -> (r: Option<Option<u32>>)
    requires
        lo <= hi <= v@.len(),
        marker@ == "version \""@,
        quote@ == "\""@,
    ensures
        r == java_line_version(v@.subrange(lo as int, hi as int)),
{
    let ghost line = v@.subrange(lo as int, hi as int);
    match find_in(v, lo, hi, marker) {
        Some(i) => {
            let start = i + marker.len();
            proof {
                assert(crate::text::match_at(line, marker@, i - lo));
                assert(line.skip(i - lo + marker@.len()) =~= v@.subrange(start as int, hi as int));
            }
            let ghost rest = v@.subrange(start as int, hi as int);
            match find_in(v, start, hi, quote) {
                Some(e) => {
                    proof {
                        assert(crate::text::match_at(rest, quote@, e - start));
                        assert(rest.take(e - start) =~= v@.subrange(start as int, e as int));
                    }
                    let dot: [char; 1] = ['.'];
                    assert(dot@ =~= seq!['.']);
                    let rs = split_ranges(v, start, e, dot.as_slice(), false);
                    let ghost parts = split(v@.subrange(start as int, e as int), seq!['.'], false);
                    assert(pieces(v@, rs@) == parts);
                    assert(parts.len() >= 1);
                    let (a0, b0) = rs[0];
                    assert(parts[0] == v@.subrange(a0 as int, b0 as int));
                    let one = chars_of("1");
                    let first_is_one = crate::text::range_eq(v, a0, b0, one.as_slice(), 0, one.len());
                    assert(one@.subrange(0, one@.len() as int) =~= one@);
                    if first_is_one && rs.len() > 1 {
                        let (a1, b1) = rs[1];
                        assert(parts[1] == v@.subrange(a1 as int, b1 as int));
                        let n = parse_uint_in(v, a1, b1, u32::MAX as u64);
                        Some(
                            match n {
                                Some(x) => Some(x as u32),
                                None => None,
                            },
                        )
                    } else {
                        let n = parse_uint_in(v, a0, b0, u32::MAX as u64);
                        Some(
                            match n {
                                Some(x) => Some(x as u32),
                                None => None,
                            },
                        )
                    }
                },
                None => None,
            }
        },
        None => None,
    }
}

/// The Java major version in the output of `java -version`: from the first
/// line that holds `version "…"`, the component before the first dot, or
/// the one after it for the old `1.x` scheme.
pub fn parse_java_major_version(output: &str) -> (r: Option<u32>)
    ensures
        r == java_major(lines(output@)),
{
    let v = chars_of(output);
    let rs = line_ranges(v.as_slice(), 0, v.len());
    assert(v@.subrange(0, v@.len() as int) =~= v@);
    let marker = chars_of("version \"");
    let quote = chars_of("\"");
    let ghost ls = lines(output@);
    let mut i: usize = 0;
    while i < rs.len()
        invariant
            i <= rs@.len(),
            v@ == output@,
            ls == lines(output@),
            pieces(v@, rs@) == ls,
            ranges_within(rs@, 0, v@.len() as int),
            marker@ == "version \""@,
            quote@ == "\""@,
            forall|j: int| 0 <= j < i ==> java_line_version(#[trigger] ls[j]) is None,
        decreases rs.len() - i,
    {
        let (a, b) = rs[i];
        proof {
            assert(0 <= rs@[i as int].0 <= rs@[i as int].1 <= v@.len());
            assert(ls[i as int] == v@.subrange(a as int, b as int));
        }
        let found = java_line(v.as_slice(), a, b, marker.as_slice(), quote.as_slice());
        if let Some(res) = found {
            proof {
                lemma_java_major_at(ls, i as int);
            }
            return res;
        }
        i += 1;
    }
    proof {
        lemma_java_major_at(ls, i as int);
    }
    None
}

// ---------------------------------------------------------------------
// Keystore password
// ---------------------------------------------------------------------

/// The keystore password: the configured value trimmed, unless it is
/// shorter than six bytes (or unset), in which case `revanced`.
pub open spec fn keystore_password(env_value: Option<Seq<char>>) -> Seq<char> {
    match env_value {
        Some(p) => if utf8_width(trim(p)) >= 6 {
            trim(p)
        } else {
            "revanced"@
        },
        None => "revanced"@,
    }
}

/// Whether `s` takes at least `k` bytes in UTF-8.
fn utf8_at_least(s: &str, k: usize) -> (r: bool)
    requires
        k <= 64,
    ensures
        r == (utf8_width(s@) >= k),
{
    let v = chars_of(s);
    let mut n: usize = 0;
    let mut i: usize = 0;
    while i < v.len() && n < k
        invariant
            i <= v@.len(),
            v@ == s@,
            k <= 64,
            n == utf8_width(s@.take(i as int)),
            i < v@.len() ==> n < k + 4,
            i == v@.len() ==> n < k + 4,
        decreases v.len() - i,
    {
        let u = v[i] as u32;
        let w: usize = if u < 0x80 {
            1
        } else if u < 0x800 {
            2
        } else if u < 0x10000 {
            3
        } else {
            4
        };
        assert(s@.take(i + 1).drop_last() =~= s@.take(i as int));
        n = n + w;
        i += 1;
    }
    proof {
        if n < k {
            assert(s@.take(i as int) =~= s@);
        } else {
            crate::text::lemma_utf8_width_append(s@.take(i as int), s@.skip(i as int));
            assert(s@.take(i as int) + s@.skip(i as int) =~= s@);
        }
    }
    n >= k
}

/// The keystore password for the value of `KEYSTORE_PASSWORD`, if set.
pub fn get_keystore_password(env_value: Option<&str>) -> (r: String)
    ensures
        r@ == keystore_password(match env_value {
            Some(s) => Some(s@),
            None => None,
        }),
{
    match env_value {
        Some(p) => {
            let t = str_trim(p);
            if utf8_at_least(t.as_str(), 6) {
                t
            } else {
                string_from_str("revanced")
            }
        },
        None => string_from_str("revanced"),
    }
}

} // verus!

use crate::config::apps::AppConfig;
use crate::config::loader::Config;
use crate::text::{
    contains, opt_string_view, push_dec, push_str, str_contains, str_ends_with, str_eq, str_views,
    ends_with, dec,
};

verus! {

// ---------------------------------------------------------------------
// Tools and patch bundles
// ---------------------------------------------------------------------

/// A downloaded tool is fetched again when the file is not a valid archive,
/// or when both the upstream and the cached release tag are known and
/// differ.
pub open spec fn needs_download(valid: bool, upstream: Option<Seq<char>>, cached: Option<Seq<char>>) -> bool {
    !valid || (upstream matches Some(u) && cached matches Some(c) && u != c)
}

/// Whether a tool is fetched again.
pub fn tool_needs_download(valid: bool, upstream: Option<&str>, cached: Option<&str>) -> (r: bool)
    ensures
        r == needs_download(valid, crate::builder::opt_str(upstream), crate::builder::opt_str(cached)),
{
    if !valid {
        return true;
    }
    match (upstream, cached) {
        (Some(u), Some(c)) => !str_eq(u, c),
        _ => false,
    }
}

/// The repository and branch an app's patches come from, whatever its
/// enabled state; none for an app without a patch source.
pub open spec fn app_repo_branch(cfg: Config, app: AppConfig) -> Option<(Seq<char>, Option<Seq<char>>)> {
    if app.patch_source@.len() == 0 || app.patch_source@ == "none"@ {
        None
    } else {
        let (repo, source_branch) = match cfg.patch_sources.spec_get(app.patch_source@) {
            Some(p) => (p.repo@, opt_string_view(p.branch)),
            None => (app.patch_source@, None),
        };
        Some(
            (
                repo,
                match opt_string_view(app.patches_version) {
                    Some(v) => Some(v),
                    None => match opt_string_view(app.patch_branch) {
                        Some(b) => Some(b),
                        None => source_branch,
                    },
                },
            ),
        )
    }
}

/// The position of `repo` among the entries, -1 when absent.
pub open spec fn repo_pos(m: Seq<(Seq<char>, Option<Seq<char>>)>, repo: Seq<char>) -> int {
    crate::text::first_where(m, |e: (Seq<char>, Option<Seq<char>>)| e.0 == repo)
}

/// One app's repository recorded: a repository keeps the first branch it
/// was given; one without a branch takes the app's.
pub open spec fn record_repo(
    m: Seq<(Seq<char>, Option<Seq<char>>)>,
    rb: (Seq<char>, Option<Seq<char>>),
) -> Seq<(Seq<char>, Option<Seq<char>>)> {
    let i = repo_pos(m, rb.0);
    if i < m.len() {
        if m[i].1 is Some {
            m
        } else {
            m.update(i, rb)
        }
    } else {
        m.push(rb)
    }
}

/// The repositories (with branch) that the apps draw patches from, in order
/// of first appearance.
pub open spec fn repos_of(cfg: Config, apps: Seq<AppConfig>) -> Seq<(Seq<char>, Option<Seq<char>>)>
    decreases apps.len(),
{
    if apps.len() == 0 {
        seq![]
    } else {
        let prev = repos_of(cfg, apps.drop_last());
        match app_repo_branch(cfg, apps.last()) {
            Some(rb) => record_repo(prev, rb),
            None => prev,
        }
    }
}

/// The apps a tool download is for: the configured ones among the targets,
/// in target order, or every configured app.
pub open spec fn target_apps(cfg: Config, targets: Option<Seq<Seq<char>>>) -> Seq<AppConfig> {
    match targets {
        Some(ts) => ts.filter(|t: Seq<char>| cfg.apps.spec_get(t) is Some).map_values(|t: Seq<char>| cfg.apps.spec_get(t)->0),
        None => cfg.apps@.map_values(|e: (Seq<char>, AppConfig)| e.1),
    }
}

fn repo_branch_of(cfg: &Config, app: &AppConfig) -> (r: Option<(String, Option<String>)>)
    ensures
        match r {
            Some((repo, b)) => app_repo_branch(*cfg, *app) == Some((repo@, opt_string_view(b))),
            None => app_repo_branch(*cfg, *app) is None,
        },
{
    if app.patch_source.as_str().unicode_len() == 0 || str_eq(app.patch_source.as_str(), "none") {
        return None;
    }
    let (repo, source_branch) = match cfg.patch_sources.get(app.patch_source.as_str()) {
        Some(p) => (string_from_str(p.repo.as_str()), crate::text::clone_opt_string(&p.branch)),
        None => (string_from_str(app.patch_source.as_str()), None),
    };
    let branch = match &app.patches_version {
        Some(v) => Some(string_from_str(v.as_str())),
        None => match &app.patch_branch {
            Some(b) => Some(string_from_str(b.as_str())),
            None => source_branch,
        },
    };
    Some((repo, branch))
}

fn record_repo_exec(m: &mut Vec<(String, Option<String>)>, repo: String, branch: Option<String>)
    ensures
        final(m)@.map_values(|e: (String, Option<String>)| (e.0@, opt_string_view(e.1))) == record_repo(
            old(m)@.map_values(|e: (String, Option<String>)| (e.0@, opt_string_view(e.1))),
            (repo@, opt_string_view(branch)),
        ),
{
    let ghost mv = m@.map_values(|e: (String, Option<String>)| (e.0@, opt_string_view(e.1)));
    let ghost p = |e: (Seq<char>, Option<Seq<char>>)| e.0 == repo@;
    let mut i: usize = 0;
    while i < m.len()
        invariant
            i <= m@.len(),
            mv == m@.map_values(|e: (String, Option<String>)| (e.0@, opt_string_view(e.1))),
            m@ == old(m)@,
            p == (|e: (Seq<char>, Option<Seq<char>>)| e.0 == repo@),
            forall|j: int| 0 <= j < i ==> !p(#[trigger] mv[j]),
        decreases m.len() - i,
    {
        assert(mv[i as int] == (m@[i as int].0@, opt_string_view(m@[i as int].1)));
        if str_eq(m[i].0.as_str(), repo.as_str()) {
            proof {
                crate::text::lemma_first_where(mv, p, i as int);
            }
            assert(mv[i as int].1 is Some <==> m@[i as int].1 is Some);
            assert(repo_pos(mv, repo@) == i);
            if m[i].1.is_none() {
                let ghost entry = (repo, branch);
                m.set(i, (repo, branch));
                assert(m@.map_values(|e: (String, Option<String>)| (e.0@, opt_string_view(e.1))) =~= mv.update(
                    i as int,
                    (entry.0@, opt_string_view(entry.1)),
                ));
                assert(record_repo(mv, (repo@, opt_string_view(branch))) == mv.update(i as int, (repo@, opt_string_view(branch))));
            } else {
                assert(record_repo(mv, (repo@, opt_string_view(branch))) == mv);
            }
            return;
        }
        i += 1;
    }
    proof {
        crate::text::lemma_first_where(mv, p, mv.len() as int);
    }
    let ghost entry = (repo, branch);
    m.push((repo, branch));
    assert(m@.map_values(|e: (String, Option<String>)| (e.0@, opt_string_view(e.1))) =~= mv.push(
        (entry.0@, opt_string_view(entry.1)),
    ));
}

/// The repositories, with branch, that patch bundles are fetched from for
/// the target apps (every configured app without targets).
pub fn repo_branches(cfg: &Config, targets: Option<&Vec<String>>) -> (r: Vec<(String, Option<String>)>)
    ensures
        r@.map_values(|e: (String, Option<String>)| (e.0@, opt_string_view(e.1))) == repos_of(
            *cfg,
            target_apps(
                *cfg,
                match targets {
                    Some(t) => Some(str_views(t@)),
                    None => None,
                },
            ),
        ),
{
    let ghost tv: Option<Seq<Seq<char>>> = match targets {
        Some(t) => Some(str_views(t@)),
        None => None,
    };
    let ghost apps = target_apps(*cfg, tv);
    let mut m: Vec<(String, Option<String>)> = Vec::new();
    let ghost mv0 = m@.map_values(|e: (String, Option<String>)| (e.0@, opt_string_view(e.1)));
    assert(mv0 =~= Seq::<(Seq<char>, Option<Seq<char>>)>::empty());
    match targets {
        Some(ts) => {
            let ghost sv = str_views(ts@);
            let ghost pred = |t: Seq<char>| cfg.apps.spec_get(t) is Some;
            let ghost f = |t: Seq<char>| cfg.apps.spec_get(t)->0;
            let mut i: usize = 0;
            proof {
                reveal(Seq::filter);
                assert(sv.take(0) =~= Seq::<Seq<char>>::empty());
                assert(sv.take(0).filter(pred).map_values(f) =~= Seq::<AppConfig>::empty());
            }
            while i < ts.len()
                invariant
                    i <= ts@.len(),
                    sv == str_views(ts@),
                    pred == (|t: Seq<char>| cfg.apps.spec_get(t) is Some),
                    f == (|t: Seq<char>| cfg.apps.spec_get(t)->0),
                    m@.map_values(|e: (String, Option<String>)| (e.0@, opt_string_view(e.1))) == repos_of(
                        *cfg,
                        sv.take(i as int).filter(pred).map_values(f),
                    ),
                decreases ts.len() - i,
            {
                proof {
                    assert(sv.take(i + 1) =~= sv.take(i as int).push(sv[i as int]));
                    sv.take(i as int).lemma_filter_push(sv[i as int], pred);
                }
                match cfg.apps.get(ts[i].as_str()) {
                    Some(app) => {
                        let ghost before = sv.take(i as int).filter(pred).map_values(f);
                        proof {
                            assert(sv.take(i + 1).filter(pred).map_values(f) =~= before.push(*app));
                            assert(before.push(*app).drop_last() =~= before);
                        }
                        match repo_branch_of(cfg, app) {
                            Some((repo, b)) => record_repo_exec(&mut m, repo, b),
                            None => {},
                        }
                    },
                    None => {},
                }
                i += 1;
            }
            assert(sv.take(ts@.len() as int) =~= sv);
        },
        None => {
            let ghost all = cfg.apps@.map_values(|e: (Seq<char>, AppConfig)| e.1);
            let mut i: usize = 0;
            assert(all.take(0) =~= Seq::<AppConfig>::empty());
            while i < cfg.apps.len()
                invariant
                    i <= cfg.apps@.len(),
                    all == cfg.apps@.map_values(|e: (Seq<char>, AppConfig)| e.1),
                    m@.map_values(|e: (String, Option<String>)| (e.0@, opt_string_view(e.1))) == repos_of(
                        *cfg,
                        all.take(i as int),
                    ),
                decreases cfg.apps@.len() - i,
            {
                let app = cfg.apps.value_at(i);
                proof {
                    assert(all.take(i + 1).drop_last() =~= all.take(i as int));
                    assert(all.take(i + 1).last() == *app);
                }
                match repo_branch_of(cfg, app) {
                    Some((repo, b)) => record_repo_exec(&mut m, repo, b),
                    None => {},
                }
                i += 1;
            }
            assert(all.take(cfg.apps@.len() as int) =~= all);
        },
    }
    m
}

/// Where a repository's patch bundle is stored: `<tools>/patches_<repo>.mpp`
/// (`/` as `_`), and, for a branch, the versioned
/// `<tools>/patches_<repo>_<branch>.mpp` that the download goes to first.
pub fn bundle_destinations(tools_dir: &str, repo: &str, branch: Option<&str>) -> (r: (String, Option<String>))
    ensures
        r.0@ == tools_dir@ + "/patches_"@ + crate::patcher::metadata::safe_repo(repo@) + ".mpp"@,
        opt_string_view(r.1) == (match branch {
            Some(b) => Some(tools_dir@ + "/patches_"@ + crate::patcher::metadata::safe_repo(repo@) + "_"@ + b@ + ".mpp"@),
            None => None,
        }),
{
    let safe = crate::text::replace_char(repo, '/', '_');
    assert(safe@ =~= crate::patcher::metadata::safe_repo(repo@));
    let mut dest = string_from_str(tools_dir);
    push_str(&mut dest, "/patches_");
    push_str(&mut dest, safe.as_str());
    push_str(&mut dest, ".mpp");
    let versioned = match branch {
        Some(b) => {
            let mut v = string_from_str(tools_dir);
            push_str(&mut v, "/patches_");
            push_str(&mut v, safe.as_str());
            push_str(&mut v, "_");
            push_str(&mut v, b);
            push_str(&mut v, ".mpp");
            Some(v)
        },
        None => None,
    };
    (dest, versioned)
}

/// Where an existing APKEditor jar is looked for, in order.
pub fn apkeditor_candidates(tools_dir: &str) -> (r: Vec<String>)
    ensures
        str_views(r@) == seq![tools_dir@ + "/APKEditor.jar"@, "tools/APKEditor.jar"@, "APKEditor.jar"@],
{
    let mut a = string_from_str(tools_dir);
    push_str(&mut a, "/APKEditor.jar");
    let mut v: Vec<String> = Vec::new();
    v.push(a);
    v.push(string_from_str("tools/APKEditor.jar"));
    v.push(string_from_str("APKEditor.jar"));
    assert(str_views(v@) =~= seq![tools_dir@ + "/APKEditor.jar"@, "tools/APKEditor.jar"@, "APKEditor.jar"@]);
    v
}

// ---------------------------------------------------------------------
// Downloads
// ---------------------------------------------------------------------

/// The failure of a downloaded file's integrity check: only APKs are
/// checked, and an APK must start with the ZIP magic `PK\x03\x04`
/// (`header` is its first four bytes, none when shorter).
pub fn integrity_failure(path: &str, header: Option<&[u8]>) -> (r: Option<String>)
    ensures
        !(ends_with(path@, ".apk"@) || ends_with(path@, "-input.apk"@)) ==> r is None,
        (ends_with(path@, ".apk"@) || ends_with(path@, "-input.apk"@)) ==> match header {
            Some(h) if h@ == seq![0x50u8, 0x4bu8, 0x03u8, 0x04u8] => r is None,
            _ => r matches Some(m) && m@ == "Download integrity failure: "@ + path@
                + " is not a valid ZIP/APK archive (bad magic bytes)"@,
        },
{
    if !str_ends_with(path, ".apk") && !str_ends_with(path, "-input.apk") {
        return None;
    }
    let ok = match header {
        Some(h) => {
            if h.len() == 4 && h[0] == 0x50u8 && h[1] == 0x4bu8 && h[2] == 0x03u8 && h[3] == 0x04u8 {
                assert(h@ =~= seq![0x50u8, 0x4bu8, 0x03u8, 0x04u8]);
                true
            } else {
                false
            }
        },
        None => false,
    };
    if ok {
        None
    } else {
        let mut m = string_from_str("Download integrity failure: ");
        push_str(&mut m, path);
        push_str(&mut m, " is not a valid ZIP/APK archive (bad magic bytes)");
        Some(m)
    }
}

/// After failed attempt `attempt` (counting from 0) of `1 + retries`: the
/// seconds to wait before the next, `2^attempt`, or none when no attempt
/// is left.
pub fn retry_delay_secs(attempt: u32, retries: u32) -> (r: Option<u64>)
    requires
        attempt < retries ==> attempt < 64,
    ensures
        attempt < retries ==> r == Some(vstd::arithmetic::power2::pow2(attempt as nat) as u64),
        attempt >= retries ==> r is None,
{
    if attempt >= retries {
        return None;
    }
    let mut d: u64 = 1;
    let mut k: u32 = 0;
    proof {
        vstd::arithmetic::power2::lemma2_to64();
        vstd::arithmetic::power2::lemma_pow2_pos(0);
    }
    while k < attempt
        invariant
            k <= attempt,
            attempt < 64,
            d == vstd::arithmetic::power2::pow2(k as nat),
        decreases attempt - k,
    {
        proof {
            vstd::arithmetic::power2::lemma_pow2_unfold((k + 1) as nat);
            vstd::arithmetic::power2::lemma_pow2_strictly_increases((k + 1) as nat, 64);
            vstd::arithmetic::power2::lemma2_to64_rest();
            assert(d * 2 == vstd::arithmetic::power2::pow2((k + 1) as nat));
        }
        d = d * 2;
        k += 1;
    }
    Some(d)
}

/// The referer a request refused with 403 is tried again with: the
/// site's front page for an APKPure URL, else none.
pub fn fallback_referer(url: &str) -> (r: Option<String>)
    ensures
        contains(url@, "apkpure"@) ==> (r matches Some(x) && x@ == "https://apkpure.com/"@),
        !contains(url@, "apkpure"@) ==> r is None,
{
    if str_contains(url, "apkpure") {
        Some(string_from_str("https://apkpure.com/"))
    } else {
        None
    }
}

/// The arguments of a multi-connection `aria2c` download of `url` into
/// `dir`/`file_name`, with the user agent and, if given, a referer header.
pub fn aria2_args(user_agent: &str, referer: Option<&str>, dir: &str, file_name: &str, url: &str) -> (r: Vec<String>)
    ensures
        str_views(r@) == seq![
            "-x"@, "16"@, "-s"@, "16"@, "-j"@, "16"@, "-k"@, "1M"@, "-U"@, user_agent@,
            "--file-allocation=none"@, "--allow-overwrite=true"@, "--auto-file-renaming=false"@,
            "--summary-interval=0"@,
        ] + (match referer {
            Some(x) => seq!["--header"@, "Referer: "@ + x@],
            None => Seq::<Seq<char>>::empty(),
        }) + seq!["-d"@, dir@, "-o"@, file_name@, url@],
{
    let mut v: Vec<String> = Vec::new();
    v.push(string_from_str("-x"));
    v.push(string_from_str("16"));
    v.push(string_from_str("-s"));
    v.push(string_from_str("16"));
    v.push(string_from_str("-j"));
    v.push(string_from_str("16"));
    v.push(string_from_str("-k"));
    v.push(string_from_str("1M"));
    v.push(string_from_str("-U"));
    v.push(string_from_str(user_agent));
    v.push(string_from_str("--file-allocation=none"));
    v.push(string_from_str("--allow-overwrite=true"));
    v.push(string_from_str("--auto-file-renaming=false"));
    v.push(string_from_str("--summary-interval=0"));
    let ghost head = str_views(v@);
    let ghost mid: Seq<Seq<char>> = match referer {
        Some(x) => seq!["--header"@, "Referer: "@ + x@],
        None => Seq::<Seq<char>>::empty(),
    };
    if let Some(x) = referer {
        v.push(string_from_str("--header"));
        let mut h = string_from_str("Referer: ");
        push_str(&mut h, x);
        v.push(h);
    }
    assert(str_views(v@) =~= head + mid);
    let ghost before = str_views(v@);
    v.push(string_from_str("-d"));
    v.push(string_from_str(dir));
    v.push(string_from_str("-o"));
    v.push(string_from_str(file_name));
    v.push(string_from_str(url));
    assert(str_views(v@) =~= before + seq!["-d"@, dir@, "-o"@, file_name@, url@]);
    v
}

/// The verdict on `java -version` output (its standard output and error
/// joined): the major version, or an error when it names none or one below
/// `min_version`.
pub fn java_version_verdict(text: &str, min_version: u32) -> (r: Result<u32, String>)
    ensures
        match java_major(lines(text@)) {
            Some(v) => if v < min_version {
                r matches Err(m) && m@ == "Java version "@ + dec(v as nat) + " is below configured minimum of "@
                    + dec(min_version as nat) + " \u{2014} please upgrade JDK"@
            } else {
                r == Ok::<u32, String>(v)
            },
            None => r matches Err(m) && m@ == "Failed to parse Java major version from 'java -version' output:\n"@
                + text@,
        },
{
    match parse_java_major_version(text) {
        Some(v) => {
            if v < min_version {
                let mut m = string_from_str("Java version ");
                push_dec(&mut m, v as u64);
                push_str(&mut m, " is below configured minimum of ");
                push_dec(&mut m, min_version as u64);
                push_str(&mut m, " \u{2014} please upgrade JDK");
                Err(m)
            } else {
                Ok(v)
            }
        },
        None => {
            let mut m = string_from_str("Failed to parse Java major version from 'java -version' output:\n");
            push_str(&mut m, text);
            Err(m)
        },
    }
}

} // verus!
