//! What goes into a bundle module: which APKs, in which order, under which
//! names, and the texts written beside them.

use vstd::prelude::*;
use crate::collections::{assoc_get, seq_lt, str_less, StrMap};
use crate::config::apps::AppConfig;
use crate::config::loader::{Config, ModuleMetaConfig, overridden};
use crate::module::{file_name_of, file_stem_of, path_file_name, path_file_stem};
use crate::config::loader::ModulePropMeta;
use crate::text::{
    contains, dec, ends_with, eq_ignore_case, join, lowercase_of, push_dec, push_str,
    replace_all, replace_char, replace_str, split, split_ranges, str_contains, str_ends_with,
    str_eq, str_eq_ignore_case, str_to_lowercase, str_trim, str_views, string_from_str,
    string_of, strip_suffixes, strip_suffixes_end, title_case, title_case_exec, trim, chars_of,
    pieces, ranges_within, opt_string_view,
};

verus! {

// ---------------------------------------------------------------------
// APK file names
// ---------------------------------------------------------------------

/// The app id of an output APK's stem and how preferred the build is: a
/// root build (`-root`) over a patched one (`-patched`) over a plain one.
pub open spec fn apk_stem(stem: Seq<char>) -> (Seq<char>, u8) {
    if ends_with(stem, "-root"@) {
        (stem.take(stem.len() - "-root"@.len()), 2)
    } else if ends_with(stem, "-patched"@) {
        (stem.take(stem.len() - "-patched"@.len()), 1)
    } else {
        (stem, 0)
    }
}

/// Splits an APK stem into its app id and build preference.
pub fn parse_apk_stem(stem: &str) -> (r: (String, u8))
    ensures
        (r.0@, r.1) == apk_stem(stem@),
{
    let v = chars_of(stem);
    let root = chars_of("-root");
    let patched = chars_of("-patched");
    assert(v@.subrange(0, v@.len() as int) =~= v@);
    if crate::text::ends_with_in(v.as_slice(), 0, v.len(), root.as_slice()) {
        let e = v.len() - root.len();
        assert(v@.subrange(0, e as int) =~= stem@.take(stem@.len() - "-root"@.len()));
        (string_of(v.as_slice(), 0, e), 2)
    } else if crate::text::ends_with_in(v.as_slice(), 0, v.len(), patched.as_slice()) {
        let e = v.len() - patched.len();
        assert(v@.subrange(0, e as int) =~= stem@.take(stem@.len() - "-patched"@.len()));
        (string_of(v.as_slice(), 0, e), 1)
    } else {
        (string_from_str(stem), 0)
    }
}

/// The app id and preference of an APK path, by its file stem (the path
/// itself when it has none).
pub open spec fn path_app(path: Seq<char>) -> (Seq<char>, u8) {
    match file_stem_of(path) {
        Some(s) => apk_stem(s),
        None => apk_stem(path),
    }
}

fn app_of_path(path: &str) -> (r: (String, u8))
    ensures
        (r.0@, r.1) == path_app(path@),
{
    match path_file_stem(path) {
        Some(s) => parse_apk_stem(s.as_str()),
        None => parse_apk_stem(path),
    }
}

// ---------------------------------------------------------------------
// Names of bundles
// ---------------------------------------------------------------------

/// The name of the bundle for module `key`: its configured name, else
/// `ReVanceX <Key In Title Case> Bundle`.
pub open spec fn bundle_name(cfg: Config, key: Seq<char>) -> Seq<char> {
    match cfg.modules.spec_get(key) {
        Some(m) if m.name is Some => m.name->0@,
        _ => "ReVanceX "@ + title_case(key) + " Bundle"@,
    }
}

/// The display name of the bundle for module `key`.
pub fn bundle_display_name(cfg: &Config, key: &str) -> (r: String)
    ensures
        r@ == bundle_name(*cfg, key@),
{
    if let Some(m) = cfg.modules.get(key) {
        if let Some(n) = &m.name {
            return string_from_str(n.as_str());
        }
    }
    let title = title_case_exec(key);
    let mut s = string_from_str("ReVanceX ");
    push_str(&mut s, title.as_str());
    push_str(&mut s, " Bundle");
    s
}

/// One module to build: its comma-separated apps or paths and, for a
/// configured module, its id, name and archive name.
pub struct BundleJob {
    pub apps: String,
    pub module_id: Option<String>,
    pub module_name: Option<String>,
    pub zip_name: Option<String>,
}

/// Selects the ids of configured, enabled apps.
pub open spec fn enabled_in(cfg: Config) -> spec_fn(Seq<char>) -> bool {
    |id: Seq<char>| cfg.apps.spec_get(id) is Some && cfg.apps.spec_get(id)->0.enabled
}

/// The job for configured module `key` with definition `m`.
pub open spec fn module_job(cfg: Config, key: Seq<char>, ids: Seq<Seq<char>>, module_id: Option<Seq<char>>, zip: Option<Seq<char>>) -> (Seq<char>, Seq<char>, Seq<char>, Seq<char>) {
    (
        join(ids.filter(enabled_in(cfg)), seq![',']),
        match module_id {
            Some(i) => i,
            None => "revancex-"@ + key,
        },
        bundle_name(cfg, key),
        match zip {
            Some(z) => z,
            None => "revancex-bundle-"@ + key + ".zip"@,
        },
    )
}

/// A job with its strings taken by view.
pub open spec fn job_view(j: BundleJob) -> (Seq<char>, Option<Seq<char>>, Option<Seq<char>>, Option<Seq<char>>) {
    (j.apps@, opt_string_view(j.module_id), opt_string_view(j.module_name), opt_string_view(j.zip_name))
}

/// The job for a configured module, viewed.
pub open spec fn module_job_view(cfg: Config, key: Seq<char>, def: crate::config::loader::ModuleDefinition) -> (
    Seq<char>,
    Option<Seq<char>>,
    Option<Seq<char>>,
    Option<Seq<char>>,
) {
    let t = module_job(cfg, key, str_views(def.apps@), opt_string_view(def.module_id), opt_string_view(def.zip_name));
    (t.0, Some(t.1), Some(t.2), Some(t.3))
}

/// The jobs for every configured module that has an enabled app, in key order.
pub open spec fn all_jobs(cfg: Config, ms: Seq<(Seq<char>, crate::config::loader::ModuleDefinition)>) -> Seq<
    (Seq<char>, Option<Seq<char>>, Option<Seq<char>>, Option<Seq<char>>),
>
    decreases ms.len(),
{
    if ms.len() == 0 {
        seq![]
    } else {
        let prev = all_jobs(cfg, ms.drop_last());
        let j = module_job_view(cfg, ms.last().0, ms.last().1);
        if j.0.len() > 0 {
            prev.push(j)
        } else {
            prev
        }
    }
}

/// The jobs of a bundle request, viewed.
pub open spec fn requested_jobs(cfg: Config, request: Seq<char>) -> Seq<
    (Seq<char>, Option<Seq<char>>, Option<Seq<char>>, Option<Seq<char>>),
> {
    let lower = trim(lowercase_of(request));
    if lower == "all"@ || lower == "all-enabled"@ || lower == "categories"@ {
        all_jobs(cfg, cfg.modules@)
    } else {
        match cfg.modules.spec_get(lower) {
            Some(def) => seq![module_job_view(cfg, lower, def)],
            None => seq![(request, None, None, None)],
        }
    }
}

/// The enabled apps of a module, joined by commas.
fn enabled_apps_joined(cfg: &Config, ids: &Vec<String>) -> (r: String)
    ensures
        r@ == join(str_views(ids@).filter(enabled_in(*cfg)), seq![',']),
{
    let ghost pred = enabled_in(*cfg);
    let ghost sv = str_views(ids@);
    let mut kept: Vec<String> = Vec::new();
    let mut out = String::new();
    let mut i: usize = 0;
    proof {
        reveal(Seq::filter);
        assert(sv.take(0) =~= Seq::<Seq<char>>::empty());
        assert(str_views(kept@) =~= sv.take(0).filter(pred));
    }
    while i < ids.len()
        invariant
            i <= ids@.len(),
            sv == str_views(ids@),
            pred == enabled_in(*cfg),
            str_views(kept@) == sv.take(i as int).filter(pred),
            out@ == join(str_views(kept@), seq![',']),
        decreases ids.len() - i,
    {
        proof {
            assert(sv.take(i + 1) =~= sv.take(i as int).push(sv[i as int]));
            sv.take(i as int).lemma_filter_push(sv[i as int], pred);
        }
        let on = match cfg.apps.get(ids[i].as_str()) {
            Some(a) => a.enabled,
            None => false,
        };
        if on {
            let ghost k0 = str_views(kept@);
            if kept.len() > 0 {
                push_str(&mut out, ",");
            }
            push_str(&mut out, ids[i].as_str());
            kept.push(string_from_str(ids[i].as_str()));
            proof {
                assert(str_views(kept@) =~= k0.push(sv[i as int]));
                crate::text::lemma_join_push(k0, sv[i as int], seq![',']);
                reveal_strlit(",");
            }
        }
        i += 1;
    }
    assert(sv.take(ids@.len() as int) =~= sv);
    out
}

fn make_module_job(cfg: &Config, key: &str, def: &crate::config::loader::ModuleDefinition) -> (r: BundleJob)
    ensures
        job_view(r) == module_job_view(*cfg, key@, *def),
{
    let apps = enabled_apps_joined(cfg, &def.apps);
    let id = match &def.module_id {
        Some(i) => string_from_str(i.as_str()),
        None => {
            let mut s = string_from_str("revancex-");
            push_str(&mut s, key);
            s
        },
    };
    let name = bundle_display_name(cfg, key);
    let zip = match &def.zip_name {
        Some(z) => string_from_str(z.as_str()),
        None => {
            let mut s = string_from_str("revancex-bundle-");
            push_str(&mut s, key);
            push_str(&mut s, ".zip");
            s
        },
    };
    BundleJob { apps, module_id: Some(id), module_name: Some(name), zip_name: Some(zip) }
}

/// The modules to build for a bundle request: every configured module with
/// an enabled app for `all`, `all-enabled` or `categories`; the named
/// configured module; or else the request itself as a list of apps or paths.
pub fn bundle_jobs(cfg: &Config, apps_or_paths: &str) -> (r: Vec<BundleJob>)
    ensures
        r@.map_values(|j: BundleJob| job_view(j)) == requested_jobs(*cfg, apps_or_paths@),
{
    let low = str_to_lowercase(apps_or_paths);
    let lower = str_trim(low.as_str());
    let mut jobs: Vec<BundleJob> = Vec::new();
    if str_eq(lower.as_str(), "all") || str_eq(lower.as_str(), "all-enabled") || str_eq(lower.as_str(), "categories") {
        let mods = &cfg.modules;
        let ghost ms = cfg.modules@;
        let mut k: usize = 0;
        assert(ms.take(0) =~= Seq::<(Seq<char>, crate::config::loader::ModuleDefinition)>::empty());
        assert(jobs@.map_values(|j: BundleJob| job_view(j)) =~= all_jobs(*cfg, ms.take(0)));
        while k < mods.len()
            invariant
                k <= ms.len(),
                ms == cfg.modules@,
                mods@ == ms,
                jobs@.map_values(|j: BundleJob| job_view(j)) == all_jobs(*cfg, ms.take(k as int)),
            decreases ms.len() - k,
        {
            proof {
                assert(ms.take(k + 1).drop_last() =~= ms.take(k as int));
                assert(ms.take(k + 1).last() == ms[k as int]);
            }
            let key = mods.key_at(k);
            let def = mods.value_at(k);
            let job = make_module_job(cfg, key.as_str(), def);
            let ghost before = jobs@.map_values(|j: BundleJob| job_view(j));
            if job.apps.as_str().unicode_len() > 0 {
                jobs.push(job);
                assert(jobs@.map_values(|j: BundleJob| job_view(j)) =~= before.push(module_job_view(*cfg, ms[k as int].0, ms[k as int].1)));
            }
            k += 1;
        }
        assert(ms.take(ms.len() as int) =~= ms);
        return jobs;
    }
    match cfg.modules.get(lower.as_str()) {
        Some(def) => {
            jobs.push(make_module_job(cfg, lower.as_str(), def));
        },
        None => {
            jobs.push(BundleJob { apps: string_from_str(apps_or_paths), module_id: None, module_name: None, zip_name: None });
        },
    }
    assert(jobs@.map_values(|j: BundleJob| job_view(j)) =~= requested_jobs(*cfg, apps_or_paths@));
    jobs
}

// ---------------------------------------------------------------------
// Collecting APKs
// ---------------------------------------------------------------------

/// The tokens of a bundle request: comma-separated, trimmed, non-empty,
/// microG left out.
pub open spec fn request_tokens(request: Seq<char>) -> Seq<Seq<char>> {
    split(request, seq![','], false).map_values(|t: Seq<char>| trim(t)).filter(
        |t: Seq<char>| t.len() > 0 && !eq_ignore_case(t, "microg"@),
    )
}

/// Keeps the tokens that name something.
pub open spec fn token_kept() -> spec_fn(Seq<char>) -> bool {
    |t: Seq<char>| t.len() > 0 && !eq_ignore_case(t, "microg"@)
}

/// The apps and paths a bundle request names.
pub fn bundle_tokens(request: &str) -> (r: Vec<String>)
    ensures
        str_views(r@) == split(request@, seq![','], false).map_values(|t: Seq<char>| trim(t)).filter(token_kept()),
{
    let v = chars_of(request);
    let comma: [char; 1] = [','];
    assert(comma@ =~= seq![',']);
    let rs = split_ranges(v.as_slice(), 0, v.len(), comma.as_slice(), false);
    assert(v@.subrange(0, v@.len() as int) =~= v@);
    let ghost ts = pieces(v@, rs@).map_values(|t: Seq<char>| trim(t));
    let ghost pred = token_kept();
    let mut out: Vec<String> = Vec::new();
    let mut i: usize = 0;
    proof {
        reveal(Seq::filter);
        assert(ts.take(0) =~= Seq::<Seq<char>>::empty());
        assert(str_views(out@) =~= ts.take(0).filter(pred));
    }
    while i < rs.len()
        invariant
            i <= rs@.len(),
            v@ == request@,
            ts == pieces(v@, rs@).map_values(|t: Seq<char>| trim(t)),
            pred == token_kept(),
            ranges_within(rs@, 0, v@.len() as int),
            str_views(out@) == ts.take(i as int).filter(pred),
        decreases rs.len() - i,
    {
        let (a, b) = rs[i];
        let (ta, tb) = crate::text::trim_range(v.as_slice(), a, b);
        let t = string_of(v.as_slice(), ta, tb);
        proof {
            assert(0 <= rs@[i as int].0 <= rs@[i as int].1 <= v@.len());
            assert(ts[i as int] == t@);
            assert(ts.take(i + 1) =~= ts.take(i as int).push(ts[i as int]));
            ts.take(i as int).lemma_filter_push(ts[i as int], pred);
        }
        if tb > ta && !str_eq_ignore_case(t.as_str(), "microg") {
            let ghost b0 = str_views(out@);
            out.push(t);
            assert(str_views(out@) =~= b0.push(ts[i as int]));
        }
        i += 1;
    }
    assert(ts.take(rs@.len() as int) =~= ts);
    out
}

/// The APK chosen for each app so far: its path and build preference.
pub open spec fn apk_entry_view(e: (String, u8)) -> (Seq<char>, u8) {
    (e.0@, e.1)
}

/// What happens to the map when `file_name` at `path` is considered: an
/// APK (for a directory scan, one with an `.apk` extension), not microG,
/// of an app that is not disabled, and (with `only`) of that app, replaces
/// the app's entry when it is preferred over it, or adds one.
pub open spec fn considered(
    cfg: Config,
    path: Seq<char>,
    file_name: Seq<char>,
    only: Option<Seq<char>>,
    dir_scan: bool,
    current: Option<(Seq<char>, u8)>,
) -> Option<Option<(Seq<char>, u8)>> {
    let is_apk = ends_with(file_name, ".apk"@) && (!dir_scan || file_name != ".apk"@);
    let (id, prio) = apk_stem(strip_suffixes(file_name, ".apk"@));
    if !is_apk || contains(lowercase_of(file_name), "microg"@) {
        None
    } else if only matches Some(t) && id != t {
        None
    } else if cfg.apps.spec_get(id) matches Some(a) && !a.enabled {
        None
    } else {
        match current {
            Some((_, prev)) => if prio > prev {
                Some(Some((path, prio)))
            } else {
                Some(None)
            },
            None => Some(Some((path, prio))),
        }
    }
}

/// The app id a file name is filed under.
pub open spec fn file_app(file_name: Seq<char>) -> Seq<char> {
    apk_stem(strip_suffixes(file_name, ".apk"@)).0
}

/// Considers one file for the bundle. The map holds, per app id, the chosen
/// path and its build preference.
pub fn consider_apk(
    map: &mut StrMap<(String, u8)>,
    cfg: &Config,
    path: &str,
    file_name: &str,
    only: Option<&str>,
    dir_scan: bool,
)
    ensures
        ({
            let id = file_app(file_name@);
            let cur = match old(map).spec_get(id) {
                Some(e) => Some(apk_entry_view(e)),
                None => None,
            };
            match considered(*cfg, path@, file_name@, crate::builder::opt_str(only), dir_scan, cur) {
                Some(Some(e)) => final(map).spec_get(id) matches Some(n) && apk_entry_view(n) == e,
                _ => final(map).spec_get(id) == old(map).spec_get(id),
            }
        }),
        forall|q: Seq<char>| q != file_app(file_name@) ==> final(map).spec_get(q) == old(map).spec_get(q),
{
    let v = chars_of(file_name);
    let apk = chars_of(".apk");
    let is_apk = str_ends_with(file_name, ".apk") && (!dir_scan || !str_eq(file_name, ".apk"));
    let lower = str_to_lowercase(file_name);
    if !is_apk || str_contains(lower.as_str(), "microg") {
        return;
    }
    let e = strip_suffixes_end(v.as_slice(), 0, v.len(), apk.as_slice());
    assert(v@.subrange(0, v@.len() as int) =~= v@);
    let stem = string_of(v.as_slice(), 0, e);
    let (id, prio) = parse_apk_stem(stem.as_str());
    if let Some(t) = only {
        if !str_eq(id.as_str(), t) {
            return;
        }
    }
    if let Some(a) = cfg.apps.get(id.as_str()) {
        if !a.enabled {
            return;
        }
    }
    let replace = match map.get(id.as_str()) {
        Some(cur) => prio > cur.1,
        None => true,
    };
    if replace {
        map.insert(id, (string_from_str(path), prio));
    }
}

/// The build order of a bundle's APKs: by the bundle priority of their app
/// (100 when unconfigured), then by path.
pub open spec fn apk_priority(cfg: Config, path: Seq<char>) -> u32 {
    match cfg.apps.spec_get(path_app(path).0) {
        Some(a) => a.bundle_priority,
        None => 100,
    }
}

/// `a` goes strictly before `b`.
pub open spec fn apk_before(cfg: Config, a: Seq<char>, b: Seq<char>) -> bool {
    apk_priority(cfg, a) < apk_priority(cfg, b) || (apk_priority(cfg, a) == apk_priority(cfg, b) && seq_lt(a, b))
}

/// In bundle order.
pub open spec fn apks_ordered(cfg: Config, s: Seq<Seq<char>>) -> bool {
    forall|i: int, j: int| 0 <= i < j < s.len() ==> !apk_before(cfg, #[trigger] s[j], #[trigger] s[i])
}

fn priority_of(cfg: &Config, path: &str) -> (r: u32)
    ensures
        r == apk_priority(*cfg, path@),
{
    let (id, _) = app_of_path(path);
    match cfg.apps.get(id.as_str()) {
        Some(a) => a.bundle_priority,
        None => 100,
    }
}

/// Sorts the chosen APKs into bundle order.
pub fn order_bundle_apks(cfg: &Config, apks: Vec<String>) -> (r: Vec<String>)
    ensures
        str_views(r@).to_multiset() == str_views(apks@).to_multiset(),
        apks_ordered(*cfg, str_views(r@)),
{
    let mut out: Vec<String> = Vec::new();
    let mut prios: Vec<u32> = Vec::new();
    let ghost iv = str_views(apks@);
    let mut k: usize = 0;
    assert(iv.take(0) =~= Seq::<Seq<char>>::empty());
    assert(str_views(out@) =~= Seq::<Seq<char>>::empty());
    while k < apks.len()
        invariant
            k <= apks@.len(),
            iv == str_views(apks@),
            prios@.len() == out@.len(),
            forall|i: int| 0 <= i < prios@.len() ==> (#[trigger] prios@[i]) == apk_priority(*cfg, out@[i]@),
            str_views(out@).to_multiset() == iv.take(k as int).to_multiset(),
            apks_ordered(*cfg, str_views(out@)),
        decreases apks.len() - k,
    {
        let x = &apks[k];
        let xp = priority_of(cfg, x.as_str());
        let mut p: usize = 0;
        while p < out.len() && !(xp < prios[p] || (xp == prios[p] && str_less(x.as_str(), out[p].as_str())))
            invariant
                p <= out@.len(),
                prios@.len() == out@.len(),
                xp == apk_priority(*cfg, x@),
                forall|i: int| 0 <= i < prios@.len() ==> (#[trigger] prios@[i]) == apk_priority(*cfg, out@[i]@),
                forall|i: int| 0 <= i < p ==> !apk_before(*cfg, x@, #[trigger] out@[i]@),
            decreases out.len() - p,
        {
            p += 1;
        }
        let ghost o0 = str_views(out@);
        proof {
            if p < out@.len() {
                assert(apk_before(*cfg, x@, o0[p as int]));
            }
            assert forall|i: int| 0 <= i < o0.len() implies (i < p ==> !apk_before(*cfg, x@, #[trigger] o0[i])) && (i >= p ==> !apk_before(*cfg, o0[i], x@)) by {
                assert(o0[i] == out@[i]@);
                if i >= p {
                    let y = o0[p as int];
                    assert(apk_before(*cfg, x@, y));
                    if i > p {
                        assert(!apk_before(*cfg, o0[i], y));
                    }
                    if apk_before(*cfg, o0[i], x@) {
                        assert(apk_priority(*cfg, o0[i]) == apk_priority(*cfg, x@));
                        assert(apk_priority(*cfg, x@) == apk_priority(*cfg, y));
                        assert(seq_lt(o0[i], x@) && seq_lt(x@, y));
                        crate::collections::lemma_seq_lt_transitive(o0[i], x@, y);
                        crate::collections::lemma_seq_lt_irreflexive(y);
                    }
                }
            }
            vstd::seq_lib::to_multiset_insert(o0, p as int, x@);
            vstd::seq_lib::to_multiset_build(iv.take(k as int), x@);
            assert(iv.take(k + 1) =~= iv.take(k as int).push(x@));
        }
        out.insert(p, string_from_str(x.as_str()));
        prios.insert(p, xp);
        proof {
            let o1 = str_views(out@);
            assert(o1 =~= o0.insert(p as int, x@));
            assert forall|i: int, j: int| 0 <= i < j < o1.len() implies !apk_before(*cfg, #[trigger] o1[j], #[trigger] o1[i]) by {
                if j < p {
                    assert(o1[i] == o0[i] && o1[j] == o0[j]);
                } else if j == p {
                    assert(o1[i] == o0[i]);
                } else if i < p {
                    assert(o1[i] == o0[i] && o1[j] == o0[j - 1]);
                    if apk_before(*cfg, o0[j - 1], o0[i]) {
                        crate::collections::lemma_seq_lt_irreflexive(o0[i]);
                        if seq_lt(o0[j - 1], o0[i]) && seq_lt(o0[i], x@) {
                            crate::collections::lemma_seq_lt_transitive(o0[j - 1], o0[i], x@);
                        }
                        crate::collections::lemma_seq_lt_total(x@, o0[i]);
                        crate::collections::lemma_seq_lt_total(o0[j - 1], x@);
                    }
                } else if i == p {
                    assert(o1[j] == o0[j - 1]);
                } else {
                    assert(o1[i] == o0[i - 1] && o1[j] == o0[j - 1]);
                }
            }
        }
        k += 1;
    }
    assert(iv.take(apks@.len() as int) =~= iv);
    out
}

} // verus!

verus! {

// ---------------------------------------------------------------------
// The size budget
// ---------------------------------------------------------------------

/// The total of a list of sizes.
pub open spec fn total_size(s: Seq<u64>) -> int
    decreases s.len(),
{
    if s.len() == 0 {
        0
    } else {
        total_size(s.drop_last()) + s.last()
    }
}

/// How many APKs, taken in bundle order, fit within `max_bytes`: adding
/// stops at the first one that would take the total past the limit.
pub fn select_within_budget(sizes: &Vec<u64>, max_bytes: u64) -> (n: usize)
    ensures
        n <= sizes@.len(),
        total_size(sizes@.take(n as int)) <= max_bytes,
        n < sizes@.len() ==> total_size(sizes@.take(n + 1)) > max_bytes,
{
    let mut total: u64 = 0;
    let mut i: usize = 0;
    assert(sizes@.take(0) =~= Seq::<u64>::empty());
    while i < sizes.len()
        invariant
            i <= sizes@.len(),
            total == total_size(sizes@.take(i as int)),
            total <= max_bytes,
        decreases sizes.len() - i,
    {
        assert(sizes@.take(i + 1).drop_last() =~= sizes@.take(i as int));
        if sizes[i] > max_bytes - total {
            return i;
        }
        total = total + sizes[i];
        i += 1;
    }
    i
}

// ---------------------------------------------------------------------
// One APK per package
// ---------------------------------------------------------------------

/// The app id a bundled APK is filed under: by its file stem, `app` when
/// the path has none.
pub open spec fn bundled_app(path: Seq<char>) -> Seq<char> {
    match file_stem_of(path) {
        Some(s) => apk_stem(s).0,
        None => apk_stem("app"@).0,
    }
}

/// The package a bundled APK installs as: its app's configured package,
/// else the app id.
pub open spec fn bundled_package(cfg: Config, path: Seq<char>) -> Seq<char> {
    let id = bundled_app(path);
    match cfg.apps.spec_get(id) {
        Some(a) if a.package@.len() > 0 => a.package@,
        _ => id,
    }
}

/// The packages of a list of APKs.
pub open spec fn packages_of(cfg: Config, s: Seq<Seq<char>>) -> Seq<Seq<char>> {
    s.map_values(|p: Seq<char>| bundled_package(cfg, p))
}

/// Of the APKs sharing a package, the first one; the others are dropped.
pub open spec fn first_per_package(cfg: Config, s: Seq<Seq<char>>) -> Seq<Seq<char>>
    decreases s.len(),
{
    if s.len() == 0 {
        seq![]
    } else {
        let prev = first_per_package(cfg, s.drop_last());
        if packages_of(cfg, s.drop_last()).contains(bundled_package(cfg, s.last())) {
            prev
        } else {
            prev.push(s.last())
        }
    }
}

fn package_of_apk(cfg: &Config, apk: &str) -> (r: String)
    ensures
        r@ == bundled_package(*cfg, apk@),
{
    let (id, _) = match path_file_stem(apk) {
        Some(s) => parse_apk_stem(s.as_str()),
        None => parse_apk_stem("app"),
    };
    match cfg.apps.get(id.as_str()) {
        Some(a) => {
            if a.package.as_str().unicode_len() > 0 {
                string_from_str(a.package.as_str())
            } else {
                id
            }
        },
        None => id,
    }
}

/// Drops every APK whose package an earlier APK already installs, so that
/// no two APKs of a bundle share a package. The kept APKs come in the order
/// of their first appearance.
pub fn resolve_conflicts_for_bundle(cfg: &Config, apks: Vec<String>) -> (r: Result<Vec<String>, String>)
    ensures
        r matches Ok(v) && str_views(v@) == first_per_package(*cfg, str_views(apks@)),
{
    let ghost iv = str_views(apks@);
    let mut seen: Vec<String> = Vec::new();
    let mut out: Vec<String> = Vec::new();
    let mut i: usize = 0;
    assert(iv.take(0) =~= Seq::<Seq<char>>::empty());
    assert(str_views(seen@) =~= packages_of(*cfg, iv.take(0)));
    while i < apks.len()
        invariant
            i <= apks@.len(),
            iv == str_views(apks@),
            str_views(seen@) == packages_of(*cfg, iv.take(i as int)),
            str_views(out@) == first_per_package(*cfg, iv.take(i as int)),
        decreases apks.len() - i,
    {
        let pkg = package_of_apk(cfg, apks[i].as_str());
        proof {
            assert(iv.take(i + 1).drop_last() =~= iv.take(i as int));
            assert(iv.take(i + 1).last() == apks@[i as int]@);
        }
        if !crate::text::vec_contains_str(&seen, pkg.as_str()) {
            let ghost o0 = str_views(out@);
            out.push(string_from_str(apks[i].as_str()));
            assert(str_views(out@) =~= o0.push(apks@[i as int]@));
        }
        let ghost s0 = str_views(seen@);
        seen.push(pkg);
        proof {
            assert(iv.take(i + 1) =~= iv.take(i as int).push(iv[i as int]));
            assert(packages_of(*cfg, iv.take(i + 1)) =~= packages_of(*cfg, iv.take(i as int)).push(
                bundled_package(*cfg, iv[i as int]),
            ));
            assert(str_views(seen@) =~= s0.push(bundled_package(*cfg, iv[i as int])));
        }
        i += 1;
    }
    assert(iv.take(apks@.len() as int) =~= iv);
    Ok(out)
}

/// A built variant's suffix: `-root` or `-patched`.
pub open spec fn variant_suffix(s: Seq<char>) -> bool {
    s == "-root"@ || s == "-patched"@
}

/// The app id of `<id>-root` or `<id>-patched` is `id`.
proof fn lemma_stem_of_variant(id: Seq<char>, suffix: Seq<char>)
    requires
        variant_suffix(suffix),
    ensures
        apk_stem(id + suffix).0 == id,
{
    reveal_strlit("-root");
    reveal_strlit("-patched");
    let s = id + suffix;
    if suffix == "-root"@ {
        assert(s.subrange(s.len() - 5, s.len() as int) =~= "-root"@);
        assert(s.take(s.len() - 5) =~= id);
    } else {
        assert(s[s.len() - 1] == 'd');
        assert(!ends_with(s, "-root"@)) by {
            if ends_with(s, "-root"@) {
                assert(s.subrange(s.len() - 5, s.len() as int)[4] == 't');
            }
        }
        assert(s.subrange(s.len() - 8, s.len() as int) =~= "-patched"@);
        assert(s.take(s.len() - 8) =~= id);
    }
}

/// A bundled APK whose file stem is `<id>-root` or `<id>-patched` installs
/// the package configured for app `id`.
pub proof fn lemma_variant_package(cfg: Config, path: Seq<char>, id: Seq<char>, suffix: Seq<char>)
    requires
        variant_suffix(suffix),
        file_stem_of(path) == Some(id + suffix),
        cfg.apps.spec_get(id) matches Some(a) && a.package@.len() > 0,
    ensures
        bundled_package(cfg, path) == cfg.apps.spec_get(id)->0.package@,
{
    lemma_stem_of_variant(id, suffix);
}

/// Two built variants (`-root` or `-patched`) of two apps configured with
/// the same package never both stay in a bundle: the first is kept, the
/// second dropped.
pub proof fn lemma_same_package_variants_conflict(
    cfg: Config,
    p1: Seq<char>,
    id1: Seq<char>,
    s1: Seq<char>,
    p2: Seq<char>,
    id2: Seq<char>,
    s2: Seq<char>,
)
    requires
        variant_suffix(s1),
        variant_suffix(s2),
        file_stem_of(p1) == Some(id1 + s1),
        file_stem_of(p2) == Some(id2 + s2),
        cfg.apps.spec_get(id1) matches Some(a) && a.package@.len() > 0,
        cfg.apps.spec_get(id2) matches Some(b) && b.package@ == cfg.apps.spec_get(id1)->0.package@,
    ensures
        first_per_package(cfg, seq![p1, p2]) == seq![p1],
{
    lemma_variant_package(cfg, p1, id1, s1);
    lemma_variant_package(cfg, p2, id2, s2);
    let s = seq![p1, p2];
    assert(s.drop_last() =~= seq![p1]);
    assert(seq![p1].drop_last() =~= Seq::<Seq<char>>::empty());
    assert(packages_of(cfg, seq![p1]) =~= seq![bundled_package(cfg, p1)]);
    assert(packages_of(cfg, seq![p1]).contains(bundled_package(cfg, p2))) by {
        assert(packages_of(cfg, seq![p1])[0] == bundled_package(cfg, p2));
    }
    let e = Seq::<Seq<char>>::empty();
    assert(packages_of(cfg, e) =~= Seq::<Seq<char>>::empty());
    assert(!packages_of(cfg, e).contains(bundled_package(cfg, p1)));
    assert(first_per_package(cfg, e) == Seq::<Seq<char>>::empty());
    assert(first_per_package(cfg, seq![p1]) == e.push(p1));
    assert(e.push(p1) =~= seq![p1]);
}

/// After conflict resolution no two APKs of a bundle install the same
/// package, and every package of the input is still installed by one of them.
pub proof fn lemma_one_apk_per_package(cfg: Config, s: Seq<Seq<char>>)
    ensures
        packages_of(cfg, first_per_package(cfg, s)).no_duplicates(),
        forall|p: Seq<char>|
            packages_of(cfg, first_per_package(cfg, s)).contains(p) <==> #[trigger] packages_of(cfg, s).contains(p),
    decreases s.len(),
{
    if s.len() > 0 {
        let d = s.drop_last();
        let x = bundled_package(cfg, s.last());
        let prev = first_per_package(cfg, d);
        lemma_one_apk_per_package(cfg, d);
        assert(s =~= d.push(s.last()));
        assert(packages_of(cfg, s) =~= packages_of(cfg, d).push(x));
        if !packages_of(cfg, d).contains(x) {
            assert(packages_of(cfg, prev.push(s.last())) =~= packages_of(cfg, prev).push(x));
            assert(!packages_of(cfg, prev).contains(x));
        }
        let r = first_per_package(cfg, s);
        let pd = packages_of(cfg, d);
        assert forall|p: Seq<char>| packages_of(cfg, r).contains(p) <==> #[trigger] packages_of(cfg, s).contains(p) by {
            assert(packages_of(cfg, prev).contains(p) <==> pd.contains(p));
            if pd.push(x).contains(p) && p != x {
                let k = choose|k: int| 0 <= k < pd.push(x).len() && pd.push(x)[k] == p;
                assert(pd[k] == p);
            }
            if pd.contains(p) {
                let k = choose|k: int| 0 <= k < pd.len() && pd[k] == p;
                assert(pd.push(x)[k] == p);
            }
            assert(pd.push(x)[pd.len() as int] == x);
            assert(pd.push(x).contains(p) <==> pd.contains(p) || p == x);
            if pd.contains(x) {
                assert(r == prev);
            } else {
                let q = packages_of(cfg, prev).push(x);
                assert(r == prev.push(s.last()));
                assert(packages_of(cfg, r) == q);
                if q.contains(p) && p != x {
                    let k = choose|k: int| 0 <= k < q.len() && q[k] == p;
                    assert(packages_of(cfg, prev)[k] == p);
                }
                if packages_of(cfg, prev).contains(p) {
                    let k = choose|k: int| 0 <= k < packages_of(cfg, prev).len() && packages_of(cfg, prev)[k] == p;
                    assert(q[k] == p);
                }
                assert(q[q.len() - 1] == x);
            }
        }
    }
}

// ---------------------------------------------------------------------
// The files written beside the APKs
// ---------------------------------------------------------------------

/// The description in `module.prop`: the configured one when the module
/// carries a default name, else one that names the module.
pub open spec fn module_description(meta: ModuleMetaConfig, mod_name: Seq<char>) -> Seq<char> {
    if mod_name == overridden(meta.prop, |p: ModulePropMeta| p.name, meta.name) || mod_name == "ReVanceX"@
        || mod_name == "ReVanceX Bundle"@ {
        overridden(meta.prop, |p: ModulePropMeta| p.description, meta.description)
    } else {
        "Patched module for "@ + mod_name + " via ReVanceX"@
    }
}

/// The text of `module.prop`; `updateJson` only where one is configured.
pub open spec fn module_prop_text(
    id: Seq<char>,
    name: Seq<char>,
    version: Seq<char>,
    version_code: u64,
    author: Seq<char>,
    description: Seq<char>,
    min_magisk: u32,
    min_kernelsu: u32,
    update_json: Seq<char>,
) -> Seq<char> {
    "id="@ + id + "\nname="@ + name + "\nversion=v"@ + version + "\nversionCode="@ + dec(version_code as nat)
        + "\nauthor="@ + author + "\ndescription="@ + description + "\nminMagisk="@ + dec(min_magisk as nat)
        + "\nminKernelSU="@ + dec(min_kernelsu as nat) + "\n"@ + (if update_json.len() > 0 {
        "updateJson="@ + update_json + "\n"@
    } else {
        Seq::<char>::empty()
    })
}

/// The id and name a module is built under: the given ones, else those of
/// the module metadata.
pub open spec fn module_identity(meta: ModuleMetaConfig, module_id: Option<Seq<char>>, module_name: Option<Seq<char>>) -> (Seq<char>, Seq<char>) {
    (
        match module_id {
            Some(i) => i,
            None => overridden(meta.prop, |p: ModulePropMeta| p.id, meta.id),
        },
        match module_name {
            Some(n) => n,
            None => overridden(meta.prop, |p: ModulePropMeta| p.name, meta.name),
        },
    )
}

/// The `module.prop` of a module built as `module_id` / `module_name` (the
/// metadata's own where not given), at `version` with `version_code`.
pub fn module_prop(
    meta: &ModuleMetaConfig,
    module_id: Option<&str>,
    module_name: Option<&str>,
    version: &str,
    version_code: u64,
) -> (r: String)
    ensures
        ({
            let (id, name) = module_identity(*meta, crate::builder::opt_str(module_id), crate::builder::opt_str(module_name));
            r@ == module_prop_text(
                id,
                name,
                version@,
                version_code,
                overridden(meta.prop, |p: ModulePropMeta| p.author, meta.author),
                module_description(*meta, name),
                meta.min_magisk,
                meta.min_kernelsu,
                overridden(meta.prop, |p: ModulePropMeta| p.update_json, meta.update_json),
            )
        }),
{
    let id = match module_id {
        Some(i) => i,
        None => meta.resolved_id(),
    };
    let name = match module_name {
        Some(n) => n,
        None => meta.resolved_name(),
    };
    let default_name = meta.resolved_name();
    let description = if str_eq(name, default_name) || str_eq(name, "ReVanceX") || str_eq(name, "ReVanceX Bundle") {
        string_from_str(meta.resolved_description())
    } else {
        let mut d = string_from_str("Patched module for ");
        push_str(&mut d, name);
        push_str(&mut d, " via ReVanceX");
        d
    };
    let update_json = meta.resolved_update_json();
    let mut s = string_from_str("id=");
    push_str(&mut s, id);
    push_str(&mut s, "\nname=");
    push_str(&mut s, name);
    push_str(&mut s, "\nversion=v");
    push_str(&mut s, version);
    push_str(&mut s, "\nversionCode=");
    push_dec(&mut s, version_code);
    push_str(&mut s, "\nauthor=");
    push_str(&mut s, meta.resolved_author());
    push_str(&mut s, "\ndescription=");
    push_str(&mut s, description.as_str());
    push_str(&mut s, "\nminMagisk=");
    push_dec(&mut s, meta.min_magisk as u64);
    push_str(&mut s, "\nminKernelSU=");
    push_dec(&mut s, meta.min_kernelsu as u64);
    push_str(&mut s, "\n");
    let ghost base = s@;
    if update_json.unicode_len() > 0 {
        push_str(&mut s, "updateJson=");
        push_str(&mut s, update_json);
        push_str(&mut s, "\n");
        assert(s@ =~= base + ("updateJson="@ + update_json@ + "\n"@));
    } else {
        assert(s@ =~= base + Seq::<char>::empty());
    }
    s
}

/// A script with its carriage returns taken out.
pub fn strip_crlf(data: &[u8]) -> (r: Vec<u8>)
    ensures
        r@ == data@.filter(|b: u8| b != 13u8),
{
    let ghost pred = |b: u8| b != 13u8;
    let mut out: Vec<u8> = Vec::new();
    let mut i: usize = 0;
    proof {
        reveal(Seq::filter);
        assert(data@.take(0) =~= Seq::<u8>::empty());
    }
    while i < data.len()
        invariant
            i <= data@.len(),
            pred == (|b: u8| b != 13u8),
            out@ == data@.take(i as int).filter(pred),
        decreases data.len() - i,
    {
        proof {
            assert(data@.take(i + 1) =~= data@.take(i as int).push(data@[i as int]));
            data@.take(i as int).lemma_filter_push(data@[i as int], pred);
        }
        if data[i] != 13u8 {
            out.push(data[i]);
        }
        i += 1;
    }
    assert(data@.take(data@.len() as int) =~= data@);
    out
}

/// The name an app is listed under: underscores as spaces, with the
/// spellings `YouTube` and `MicroG`.
pub open spec fn clean_app_name(id: Seq<char>) -> Seq<char> {
    replace_all(
        replace_all(id.map_values(|c: char| if c == '_' { ' ' } else { c }), "youtube"@, "YouTube"@),
        "microg"@,
        "MicroG"@,
    )
}

/// One app of a bundle as the module lists it.
pub struct AppListEntry {
    pub id: String,
    pub name: String,
    pub package: String,
    pub mode: String,
    pub description: Option<String>,
}

/// The listing of a bundled APK. `apk_package` is the package read from the
/// APK itself, where it could be read; the configured package (for an
/// unconfigured app, its id) stands in otherwise.
pub fn app_list_entry(cfg: &Config, apk: &str, apk_package: Option<String>) -> (r: AppListEntry)
    ensures
        r.id@ == bundled_app(apk@),
        r.name@ == clean_app_name(bundled_app(apk@)),
        r.package@ == (match apk_package {
            Some(p) => p@,
            None => match cfg.apps.spec_get(bundled_app(apk@)) {
                Some(a) => a.package@,
                None => bundled_app(apk@),
            },
        }),
        r.mode@ == (match cfg.apps.spec_get(bundled_app(apk@)) {
            Some(a) => a.mode@,
            None => "patch"@,
        }),
        opt_string_view(r.description) == (match cfg.apps.spec_get(bundled_app(apk@)) {
            Some(a) => opt_string_view(a.description),
            None => None,
        }),
{
    let (id, _) = match path_file_stem(apk) {
        Some(s) => parse_apk_stem(s.as_str()),
        None => parse_apk_stem("app"),
    };
    let (default_pkg, mode, description) = match cfg.apps.get(id.as_str()) {
        Some(a) => (
            string_from_str(a.package.as_str()),
            string_from_str(a.mode.as_str()),
            crate::text::clone_opt_string(&a.description),
        ),
        None => (string_from_str(id.as_str()), string_from_str("patch"), None),
    };
    let package = match apk_package {
        Some(p) => p,
        None => default_pkg,
    };
    let spaced = replace_char(id.as_str(), '_', ' ');
    proof {
        reveal_strlit("youtube");
        reveal_strlit("microg");
    }
    let yt = replace_str(spaced.as_str(), "youtube", "YouTube");
    let name = replace_str(yt.as_str(), "microg", "MicroG");
    AppListEntry { id, name, package, mode, description }
}

/// The line of `apps.list` for one app: `id:package:mode`.
pub fn apps_list_line(e: &AppListEntry) -> (r: String)
    ensures
        r@ == e.id@ + ":"@ + e.package@ + ":"@ + e.mode@ + "\n"@,
{
    let mut s = string_from_str(e.id.as_str());
    push_str(&mut s, ":");
    push_str(&mut s, e.package.as_str());
    push_str(&mut s, ":");
    push_str(&mut s, e.mode.as_str());
    push_str(&mut s, "\n");
    s
}

/// The directory name a bundled APK is stored under: the app id of its
/// file name (`app.apk` for a path without one).
pub open spec fn bundled_dir(path: Seq<char>) -> Seq<char> {
    match file_name_of(path) {
        Some(n) => apk_stem(strip_suffixes(n, ".apk"@)).0,
        None => apk_stem(strip_suffixes("app.apk"@, ".apk"@)).0,
    }
}

/// Where a bundled APK goes in the archive, and where its stock APK may
/// be found and goes.
pub struct BundleApkPlacement {
    pub app_dir: String,
    pub apk_entry: String,
    pub stock_entry: String,
    pub stock_candidates: Vec<String>,
}

/// The placement of `apk` in the bundle: `apks/<dir>.apk`, with the stock
/// APK looked for, in this order, as `<temp>/<dir>-input.apk`,
/// `tmp/<dir>-input.apk` and `<temp>/<dir>.apk`, and stored as
/// `stock/<dir>.apk`.
pub fn bundle_apk_placement(temp_dir: &str, apk: &str) -> (r: BundleApkPlacement)
    ensures
        r.app_dir@ == bundled_dir(apk@),
        r.apk_entry@ == "apks/"@ + bundled_dir(apk@) + ".apk"@,
        r.stock_entry@ == "stock/"@ + bundled_dir(apk@) + ".apk"@,
        str_views(r.stock_candidates@) == seq![
            temp_dir@ + "/"@ + bundled_dir(apk@) + "-input.apk"@,
            "tmp/"@ + bundled_dir(apk@) + "-input.apk"@,
            temp_dir@ + "/"@ + bundled_dir(apk@) + ".apk"@,
        ],
{
    let name = match path_file_name(apk) {
        Some(n) => n,
        None => string_from_str("app.apk"),
    };
    let v = chars_of(name.as_str());
    let ext = chars_of(".apk");
    let e = strip_suffixes_end(v.as_slice(), 0, v.len(), ext.as_slice());
    assert(v@.subrange(0, v@.len() as int) =~= v@);
    let stem = string_of(v.as_slice(), 0, e);
    let (dir, _) = parse_apk_stem(stem.as_str());
    let mut apk_entry = string_from_str("apks/");
    push_str(&mut apk_entry, dir.as_str());
    push_str(&mut apk_entry, ".apk");
    let mut stock_entry = string_from_str("stock/");
    push_str(&mut stock_entry, dir.as_str());
    push_str(&mut stock_entry, ".apk");
    let mut c1 = string_from_str(temp_dir);
    push_str(&mut c1, "/");
    push_str(&mut c1, dir.as_str());
    push_str(&mut c1, "-input.apk");
    let mut c2 = string_from_str("tmp/");
    push_str(&mut c2, dir.as_str());
    push_str(&mut c2, "-input.apk");
    let mut c3 = string_from_str(temp_dir);
    push_str(&mut c3, "/");
    push_str(&mut c3, dir.as_str());
    push_str(&mut c3, ".apk");
    let mut cands: Vec<String> = Vec::new();
    cands.push(c1);
    cands.push(c2);
    cands.push(c3);
    assert(str_views(cands@) =~= seq![c1@, c2@, c3@]);
    BundleApkPlacement { app_dir: dir, apk_entry, stock_entry, stock_candidates: cands }
}

} // verus!
