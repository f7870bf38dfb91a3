//! Which patch sources the enabled apps draw on, and which of them have
//! published a new release since the last run.

use vstd::prelude::*;
use crate::collections::{copy_string_map, seq_lt, StrMap};
use crate::config::apps::AppConfig;
use crate::config::loader::Config;
use crate::text::{
    clone_opt_string, opt_string_view, push_str, str_eq, str_views, string_from_str,
};

verus! {

/// A patch source as the apps use it: its name, repository and branch,
/// with the apps that draw on it.
pub struct PatchPair {
    pub source: String,
    pub repo: String,
    pub branch: Option<String>,
    pub apps: Vec<String>,
}

/// The key of a patch pair: source name, repository, branch.
pub open spec fn pair_key_view(p: PatchPair) -> (Seq<char>, Seq<char>, Option<Seq<char>>) {
    (p.source@, p.repo@, opt_string_view(p.branch))
}

/// A patch pair with its strings taken by view.
pub open spec fn pair_view(p: PatchPair) -> ((Seq<char>, Seq<char>, Option<Seq<char>>), Seq<Seq<char>>) {
    (pair_key_view(p), str_views(p.apps@))
}

/// The patch source an app draws on, if it is enabled and patched: the
/// source's configured repository (the source name itself when the source
/// is not configured) and the branch, which the app's patches version, then
/// its patch branch, then the source's branch decide.
pub open spec fn app_pair_key(cfg: Config, app: AppConfig) -> Option<(Seq<char>, Seq<char>, Option<Seq<char>>)> {
    if !app.enabled || app.patch_source@.len() == 0 || app.patch_source@ == "none"@ {
        None
    } else {
        let (repo, source_branch) = match cfg.patch_sources.spec_get(app.patch_source@) {
            Some(p) => (p.repo@, opt_string_view(p.branch)),
            None => (app.patch_source@, None),
        };
        let branch = match opt_string_view(app.patches_version) {
            Some(v) => Some(v),
            None => match opt_string_view(app.patch_branch) {
                Some(b) => Some(b),
                None => source_branch,
            },
        };
        Some((app.patch_source@, repo, branch))
    }
}

/// The position of the group with key `k`, searching from the back; -1 if
/// there is none.
pub open spec fn group_pos(
    g: Seq<((Seq<char>, Seq<char>, Option<Seq<char>>), Seq<Seq<char>>)>,
    k: (Seq<char>, Seq<char>, Option<Seq<char>>),
) -> int
    decreases g.len(),
{
    if g.len() == 0 {
        -1
    } else if g.last().0 == k {
        g.len() - 1
    } else {
        group_pos(g.drop_last(), k)
    }
}

/// The groups of apps by patch pair, groups in order of first appearance
/// and apps in configuration order.
pub open spec fn app_pairs(cfg: Config, e: Seq<(Seq<char>, AppConfig)>) -> Seq<
    ((Seq<char>, Seq<char>, Option<Seq<char>>), Seq<Seq<char>>),
>
    decreases e.len(),
{
    if e.len() == 0 {
        seq![]
    } else {
        let prev = app_pairs(cfg, e.drop_last());
        let (id, app) = e.last();
        match app_pair_key(cfg, app) {
            None => prev,
            Some(k) => {
                let i = group_pos(prev, k);
                if i >= 0 {
                    prev.update(i, (k, prev[i].1.push(id)))
                } else {
                    prev.push((k, seq![id]))
                }
            },
        }
    }
}

proof fn lemma_group_pos(g: Seq<((Seq<char>, Seq<char>, Option<Seq<char>>), Seq<Seq<char>>)>, k: (Seq<char>, Seq<char>, Option<Seq<char>>))
    ensures
        -1 <= group_pos(g, k) < g.len(),
        group_pos(g, k) >= 0 ==> g[group_pos(g, k)].0 == k,
        forall|j: int| group_pos(g, k) < j < g.len() ==> g[j].0 != k,
    decreases g.len(),
{
    if g.len() > 0 && g.last().0 != k {
        let d = g.drop_last();
        lemma_group_pos(d, k);
        assert forall|j: int| group_pos(g, k) < j < g.len() implies g[j].0 != k by {
            if j < g.len() - 1 {
                assert(d[j] == g[j]);
            }
        }
        if group_pos(g, k) >= 0 {
            assert(d[group_pos(g, k)] == g[group_pos(g, k)]);
        }
    }
}

fn opt_eq(a: &Option<String>, b: &Option<String>) -> (r: bool)
    ensures
        r == (opt_string_view(*a) == opt_string_view(*b)),
{
    match (a, b) {
        (Some(x), Some(y)) => str_eq(x.as_str(), y.as_str()),
        (None, None) => true,
        _ => false,
    }
}

fn pair_key_of(cfg: &Config, app: &AppConfig) -> (r: Option<(String, String, Option<String>)>)
    ensures
        match r {
            Some((s, repo, b)) => app_pair_key(*cfg, *app) == Some((s@, repo@, opt_string_view(b))),
            None => app_pair_key(*cfg, *app) is None,
        },
{
    if !app.enabled || app.patch_source.as_str().unicode_len() == 0 || str_eq(app.patch_source.as_str(), "none") {
        return None;
    }
    let (repo, source_branch) = match cfg.patch_sources.get(app.patch_source.as_str()) {
        Some(p) => (string_from_str(p.repo.as_str()), clone_opt_string(&p.branch)),
        None => (string_from_str(app.patch_source.as_str()), None),
    };
    let branch = match &app.patches_version {
        Some(v) => Some(string_from_str(v.as_str())),
        None => match &app.patch_branch {
            Some(b) => Some(string_from_str(b.as_str())),
            None => source_branch,
        },
    };
    Some((string_from_str(app.patch_source.as_str()), repo, branch))
}

/// Groups the enabled, patched apps by the patch source, repository and
/// branch they draw on.
pub fn resolve_app_patch_pairs(cfg: &Config) -> (r: Vec<PatchPair>)
    ensures
        r@.map_values(|p: PatchPair| pair_view(p)) == app_pairs(*cfg, cfg.apps@),
{
    let ghost e = cfg.apps@;
    let mut pairs: Vec<PatchPair> = Vec::new();
    let mut i: usize = 0;
    assert(e.take(0) =~= Seq::<(Seq<char>, AppConfig)>::empty());
    assert(pairs@.map_values(|p: PatchPair| pair_view(p)) =~= app_pairs(*cfg, e.take(0)));
    while i < cfg.apps.len()
        invariant
            i <= e.len(),
            e == cfg.apps@,
            pairs@.map_values(|p: PatchPair| pair_view(p)) == app_pairs(*cfg, e.take(i as int)),
        decreases e.len() - i,
    {
        let id = cfg.apps.key_at(i);
        let app = cfg.apps.value_at(i);
        let ghost g = pairs@.map_values(|p: PatchPair| pair_view(p));
        proof {
            assert(e.take(i + 1).drop_last() =~= e.take(i as int));
            assert(e.take(i + 1).last() == e[i as int]);
        }
        match pair_key_of(cfg, app) {
            None => {},
            Some((source, repo, branch)) => {
                let ghost k = (source@, repo@, opt_string_view(branch));
                proof {
                    lemma_group_pos(g, k);
                }
                let mut j: usize = pairs.len();
                let mut found = false;
                while j > 0 && !found
                    invariant
                        j <= pairs@.len(),
                        g == pairs@.map_values(|p: PatchPair| pair_view(p)),
                        k == (source@, repo@, opt_string_view(branch)),
                        -1 <= group_pos(g, k) < g.len(),
                        forall|x: int| group_pos(g, k) < x < g.len() ==> g[x].0 != k,
                        group_pos(g, k) >= 0 ==> g[group_pos(g, k)].0 == k,
                        !found ==> group_pos(g, k) < j,
                        found ==> j < pairs@.len() && group_pos(g, k) == j,
                    decreases j,
                {
                    let c = &pairs[j - 1];
                    assert(g[j - 1] == pair_view(pairs@[j - 1]));
                    if str_eq(c.source.as_str(), source.as_str()) && str_eq(c.repo.as_str(), repo.as_str()) && opt_eq(&c.branch, &branch) {
                        assert(g[j - 1].0 == k);
                        j = j - 1;
                        found = true;
                    } else {
                        assert(g[j - 1].0 != k);
                        j = j - 1;
                    }
                }
                if found {
                    let ghost old_pairs = pairs@;
                    let mut p = pairs.remove(j);
                    assert(pair_view(p) == g[j as int]);
                    let ghost a0 = str_views(p.apps@);
                    p.apps.push(string_from_str(id.as_str()));
                    assert(str_views(p.apps@) =~= a0.push(id@));
                    let ghost pv = p;
                    pairs.insert(j, p);
                    assert(pairs@ =~= old_pairs.update(j as int, pv));
                    assert(pair_view(pv) == (k, g[j as int].1.push(id@)));
                    assert(pairs@.map_values(|p: PatchPair| pair_view(p)) =~= g.update(j as int, (k, g[j as int].1.push(id@))));
                } else {
                    let mut apps: Vec<String> = Vec::new();
                    apps.push(string_from_str(id.as_str()));
                    assert(str_views(apps@) =~= seq![id@]);
                    let np = PatchPair { source, repo, branch, apps };
                    assert(pair_view(np) == (k, seq![id@]));
                    pairs.push(np);
                    assert(pairs@.map_values(|p: PatchPair| pair_view(p)) =~= g.push((k, seq![id@])));
                }
            },
        }
        i += 1;
    }
    assert(e.take(e.len() as int) =~= e);
    pairs
}

/// The branch an enabled, patched app is checked against: its pinned
/// patches version; else its own patch branch, when set; else the patch
/// source's configured branch. The app is listed in the group of that
/// branch.
pub proof fn lemma_app_pair_branch(cfg: Config, e: Seq<(Seq<char>, AppConfig)>, k: int)
    requires
        0 <= k < e.len(),
        e[k].1.enabled,
        e[k].1.patch_source@.len() > 0,
        e[k].1.patch_source@ != "none"@,
    ensures
        exists|g: int|
            0 <= g < app_pairs(cfg, e).len() && (#[trigger] app_pairs(cfg, e)[g]).1.contains(e[k].0)
                && app_pairs(cfg, e)[g].0.0 == e[k].1.patch_source@
                && app_pairs(cfg, e)[g].0.2 == match e[k].1.patches_version {
                    Some(v) => Some(v@),
                    None => match e[k].1.patch_branch {
                        Some(b) => Some(b@),
                        None => match cfg.patch_sources.spec_get(e[k].1.patch_source@) {
                            Some(p) => opt_string_view(p.branch),
                            None => None,
                        },
                    },
                },
{
    lemma_app_pairs_grouped(cfg, e);
    assert(app_pair_key(cfg, e[k].1) is Some);
}

/// Grouping apps by patch pair gives one group per pair, and each enabled,
/// patched app is listed in the group of its pair.
pub proof fn lemma_app_pairs_grouped(cfg: Config, e: Seq<(Seq<char>, AppConfig)>)
    ensures
        forall|i: int, j: int|
            0 <= i < j < app_pairs(cfg, e).len() ==> (#[trigger] app_pairs(cfg, e)[i]).0 != (#[trigger] app_pairs(cfg, e)[j]).0,
        forall|k: int|
            0 <= k < e.len() && (#[trigger] app_pair_key(cfg, e[k].1)) is Some ==> exists|g: int|
                0 <= g < app_pairs(cfg, e).len() && app_pairs(cfg, e)[g].0 == app_pair_key(cfg, e[k].1)->0
                    && (#[trigger] app_pairs(cfg, e)[g].1).contains(e[k].0),
    decreases e.len(),
{
    if e.len() > 0 {
        let d = e.drop_last();
        lemma_app_pairs_grouped(cfg, d);
        let prev = app_pairs(cfg, d);
        let cur = app_pairs(cfg, e);
        let (id, app) = e.last();
        match app_pair_key(cfg, app) {
            None => {
                assert(cur == prev);
                assert forall|k: int| 0 <= k < e.len() && (#[trigger] app_pair_key(cfg, e[k].1)) is Some implies exists|g: int|
                    0 <= g < cur.len() && cur[g].0 == app_pair_key(cfg, e[k].1)->0 && (#[trigger] cur[g].1).contains(e[k].0) by {
                    assert(k < e.len() - 1);
                    assert(d[k] == e[k]);
                    assert(app_pair_key(cfg, d[k].1) is Some);
                }
            },
            Some(key) => {
                lemma_group_pos(prev, key);
                let pos = group_pos(prev, key);
                if pos >= 0 {
                    assert(cur == prev.update(pos, (key, prev[pos].1.push(id))));
                    assert forall|i: int, j: int| 0 <= i < j < cur.len() implies (#[trigger] cur[i]).0 != (#[trigger] cur[j]).0 by {
                        assert(prev[i].0 != prev[j].0);
                    }
                    assert forall|k: int| 0 <= k < e.len() && (#[trigger] app_pair_key(cfg, e[k].1)) is Some implies exists|g: int|
                        0 <= g < cur.len() && cur[g].0 == app_pair_key(cfg, e[k].1)->0 && (#[trigger] cur[g].1).contains(e[k].0) by {
                        if k == e.len() - 1 {
                            assert(cur[pos].1 == prev[pos].1.push(id));
                            assert(cur[pos].1[prev[pos].1.len() as int] == id);
                            assert(cur[pos].1.contains(e[k].0));
                        } else {
                            assert(d[k] == e[k]);
                            assert(app_pair_key(cfg, d[k].1) is Some);
                            let g = choose|g: int|
                                0 <= g < prev.len() && prev[g].0 == app_pair_key(cfg, d[k].1)->0 && (#[trigger] prev[g].1).contains(d[k].0);
                            if g == pos {
                                let x = choose|x: int| 0 <= x < prev[g].1.len() && prev[g].1[x] == d[k].0;
                                assert(cur[g].1[x] == d[k].0);
                                assert(cur[g].1.contains(e[k].0));
                            } else {
                                assert(cur[g] == prev[g]);
                                assert(cur[g].1.contains(e[k].0));
                            }
                        }
                    }
                } else {
                    assert(cur == prev.push((key, seq![id])));
                    assert forall|i: int, j: int| 0 <= i < j < cur.len() implies (#[trigger] cur[i]).0 != (#[trigger] cur[j]).0 by {
                        if j < prev.len() {
                            assert(prev[i].0 != prev[j].0);
                        } else {
                            assert(cur[j].0 == key);
                            assert(prev[i].0 != key);
                        }
                    }
                    assert forall|k: int| 0 <= k < e.len() && (#[trigger] app_pair_key(cfg, e[k].1)) is Some implies exists|g: int|
                        0 <= g < cur.len() && cur[g].0 == app_pair_key(cfg, e[k].1)->0 && (#[trigger] cur[g].1).contains(e[k].0) by {
                        if k == e.len() - 1 {
                            let g = prev.len() as int;
                            assert(cur[g].1 == seq![id]);
                            assert(cur[g].1[0] == id);
                            assert(cur[g].1.contains(e[k].0));
                        } else {
                            assert(d[k] == e[k]);
                            assert(app_pair_key(cfg, d[k].1) is Some);
                            let g = choose|g: int|
                                0 <= g < prev.len() && prev[g].0 == app_pair_key(cfg, d[k].1)->0 && (#[trigger] prev[g].1).contains(d[k].0);
                            assert(cur[g] == prev[g]);
                            assert(cur[g].1.contains(e[k].0));
                        }
                    }
                }
            },
        }
    }
}

// ---------------------------------------------------------------------
// Changed sources
// ---------------------------------------------------------------------

/// The key a patch pair's last seen tag is cached under: `source@branch`,
/// or the source name for the default branch.
pub open spec fn cache_key(k: (Seq<char>, Seq<char>, Option<Seq<char>>)) -> Seq<char> {
    match k.2 {
        Some(b) => k.0 + "@"@ + b,
        None => k.0,
    }
}

/// The tag seen last time: under the pair's cache key, else under the bare
/// source name, else none (empty).
pub open spec fn previous_tag(cached: StrMap<String>, k: (Seq<char>, Seq<char>, Option<Seq<char>>)) -> Seq<char> {
    match cached.spec_get(cache_key(k)) {
        Some(t) => t@,
        None => match cached.spec_get(k.0) {
            Some(t) => t@,
            None => seq![],
        },
    }
}

/// The latest tag found for pair `i`, if the lookup succeeded.
pub open spec fn latest_at(ls: Seq<Option<String>>, i: int) -> Option<Seq<char>> {
    if 0 <= i < ls.len() {
        opt_string_view(ls[i])
    } else {
        None
    }
}

/// Pair `i` published a tag other than the one seen last time.
pub open spec fn pair_changed(
    cached: StrMap<String>,
    ps: Seq<((Seq<char>, Seq<char>, Option<Seq<char>>), Seq<Seq<char>>)>,
    ls: Seq<Option<String>>,
    i: int,
) -> bool {
    latest_at(ls, i) matches Some(t) && t != previous_tag(cached, ps[i].0)
}

/// The source names of the changed pairs among the first `n`.
pub open spec fn changed_sources_upto(
    cached: StrMap<String>,
    ps: Seq<((Seq<char>, Seq<char>, Option<Seq<char>>), Seq<Seq<char>>)>,
    ls: Seq<Option<String>>,
    n: int,
) -> Set<Seq<char>> {
    Set::new(|s: Seq<char>| exists|i: int| 0 <= i < n && #[trigger] pair_changed(cached, ps, ls, i) && ps[i].0.0 == s)
}

/// The apps of the changed pairs among the first `n`.
pub open spec fn changed_apps_upto(
    cached: StrMap<String>,
    ps: Seq<((Seq<char>, Seq<char>, Option<Seq<char>>), Seq<Seq<char>>)>,
    ls: Seq<Option<String>>,
    n: int,
) -> Set<Seq<char>> {
    Set::new(|a: Seq<char>| exists|i: int| 0 <= i < n && #[trigger] pair_changed(cached, ps, ls, i) && ps[i].1.contains(a))
}

/// The cached tag under `q` once the first `n` pairs are processed: the
/// latest tag of the last changed pair cached under `q`, else the old one.
pub open spec fn tag_after(
    cached: StrMap<String>,
    ps: Seq<((Seq<char>, Seq<char>, Option<Seq<char>>), Seq<Seq<char>>)>,
    ls: Seq<Option<String>>,
    n: int,
    q: Seq<char>,
) -> Option<Seq<char>>
    decreases n,
{
    if n <= 0 {
        opt_string_view(cached.spec_get(q))
    } else if pair_changed(cached, ps, ls, n - 1) && cache_key(ps[n - 1].0) == q {
        latest_at(ls, n - 1)
    } else {
        tag_after(cached, ps, ls, n - 1, q)
    }
}

/// Strictly ascending.
pub open spec fn ascending(s: Seq<Seq<char>>) -> bool {
    forall|i: int, j: int| 0 <= i < j < s.len() ==> seq_lt(#[trigger] s[i], #[trigger] s[j])
}

fn insert_key(set: &mut StrMap<bool>, k: &str)
    ensures
        final(set).keys().to_set() == old(set).keys().to_set().insert(k@),
{
    set.insert(string_from_str(k), true);
}

/// Compares each pair's latest tag (`latest_tags[i]` for `pairs[i]`; none
/// where the lookup failed) with the one cached last time. Gives the
/// changed sources and the apps they affect, each sorted and without
/// repeats, and the cache with the new tags recorded.
pub fn detect_changed_apps_from_tags(
    pairs: &Vec<PatchPair>,
    cached_tags: &StrMap<String>,
    latest_tags: &Vec<Option<String>>,
) -> (r: (Vec<String>, Vec<String>, StrMap<String>))
    ensures
        ({
            let ps = pairs@.map_values(|p: PatchPair| pair_view(p));
            let n = ps.len() as int;
            &&& ascending(str_views(r.0@))
            &&& str_views(r.0@).to_set() == changed_sources_upto(*cached_tags, ps, latest_tags@, n)
            &&& ascending(str_views(r.1@))
            &&& str_views(r.1@).to_set() == changed_apps_upto(*cached_tags, ps, latest_tags@, n)
            &&& forall|q: Seq<char>| #[trigger] opt_string_view(r.2.spec_get(q)) == tag_after(*cached_tags, ps, latest_tags@, n, q)
        }),
{
    let ghost ps = pairs@.map_values(|p: PatchPair| pair_view(p));
    let ghost ls = latest_tags@;
    let mut sources: StrMap<bool> = StrMap::new();
    let mut apps: StrMap<bool> = StrMap::new();
    let mut cache = copy_string_map(cached_tags);
    let mut i: usize = 0;
    proof {
        assert(sources.keys().to_set() =~= changed_sources_upto(*cached_tags, ps, ls, 0));
        assert(apps.keys().to_set() =~= changed_apps_upto(*cached_tags, ps, ls, 0));
    }
    while i < pairs.len()
        invariant
            i <= pairs@.len(),
            ps == pairs@.map_values(|p: PatchPair| pair_view(p)),
            ls == latest_tags@,
            sources.keys().to_set() == changed_sources_upto(*cached_tags, ps, ls, i as int),
            apps.keys().to_set() == changed_apps_upto(*cached_tags, ps, ls, i as int),
            forall|q: Seq<char>| #[trigger] opt_string_view(cache.spec_get(q)) == tag_after(*cached_tags, ps, ls, i as int, q),
        decreases pairs.len() - i,
    {
        let p = &pairs[i];
        assert(ps[i as int] == pair_view(pairs@[i as int]));
        let key = match &p.branch {
            Some(b) => {
                let mut k = string_from_str(p.source.as_str());
                push_str(&mut k, "@");
                push_str(&mut k, b.as_str());
                k
            },
            None => string_from_str(p.source.as_str()),
        };
        assert(key@ == cache_key(ps[i as int].0));
        let prev: &str = match cached_tags.get(key.as_str()) {
            Some(t) => t.as_str(),
            None => match cached_tags.get(p.source.as_str()) {
                Some(t) => t.as_str(),
                None => "",
            },
        };
        proof {
            reveal_strlit("");
        }
        assert(prev@ == previous_tag(*cached_tags, ps[i as int].0));
        let latest: Option<&String> = if i < latest_tags.len() {
            match &latest_tags[i] {
                Some(t) => Some(t),
                None => None,
            }
        } else {
            None
        };
        let changed = match latest {
            Some(t) => !str_eq(t.as_str(), prev),
            None => false,
        };
        assert(changed == pair_changed(*cached_tags, ps, ls, i as int));
        if changed {
            let t = latest.unwrap();
            let ghost src0 = sources.keys().to_set();
            insert_key(&mut sources, p.source.as_str());
            let ghost c0 = cache;
            cache.insert(key, string_from_str(t.as_str()));
            let mut k: usize = 0;
            let ghost app0 = apps.keys().to_set();
            while k < p.apps.len()
                invariant
                    k <= p.apps@.len(),
                    i < ps.len(),
                    ps[i as int].1 == str_views(p.apps@),
                    apps.keys().to_set() == app0 + ps[i as int].1.take(k as int).to_set(),
                decreases p.apps.len() - k,
            {
                insert_key(&mut apps, p.apps[k].as_str());
                assert(ps[i as int].1.take(k + 1) =~= ps[i as int].1.take(k as int).push(p.apps@[k as int]@));
                proof {
                    ps[i as int].1.take(k as int).lemma_push_to_set_commute(p.apps@[k as int]@);
                    assert(apps.keys().to_set() =~= app0 + ps[i as int].1.take(k + 1).to_set());
                }
                k += 1;
            }
            proof {
                assert(ps[i as int].1.take(p.apps@.len() as int) =~= ps[i as int].1);
                assert(sources.keys().to_set() =~= changed_sources_upto(*cached_tags, ps, ls, i + 1)) by {
                    assert forall|s: Seq<char>| changed_sources_upto(*cached_tags, ps, ls, i + 1).contains(s) implies src0.insert(ps[i as int].0.0).contains(s) by {
                        let j = choose|j: int| 0 <= j < i + 1 && #[trigger] pair_changed(*cached_tags, ps, ls, j) && ps[j].0.0 == s;
                        if j < i {
                            assert(changed_sources_upto(*cached_tags, ps, ls, i as int).contains(s));
                        }
                    }
                    assert forall|s: Seq<char>| src0.insert(ps[i as int].0.0).contains(s) implies changed_sources_upto(*cached_tags, ps, ls, i + 1).contains(s) by {
                        if s != ps[i as int].0.0 {
                            assert(changed_sources_upto(*cached_tags, ps, ls, i as int).contains(s));
                        }
                    }
                }
                assert(apps.keys().to_set() =~= changed_apps_upto(*cached_tags, ps, ls, i + 1)) by {
                    assert forall|a: Seq<char>| changed_apps_upto(*cached_tags, ps, ls, i + 1).contains(a) implies (app0 + ps[i as int].1.to_set()).contains(a) by {
                        let j = choose|j: int| 0 <= j < i + 1 && #[trigger] pair_changed(*cached_tags, ps, ls, j) && ps[j].1.contains(a);
                        if j < i {
                            assert(changed_apps_upto(*cached_tags, ps, ls, i as int).contains(a));
                        }
                    }
                    assert forall|a: Seq<char>| (app0 + ps[i as int].1.to_set()).contains(a) implies changed_apps_upto(*cached_tags, ps, ls, i + 1).contains(a) by {
                        if app0.contains(a) {
                            let j = choose|j: int| 0 <= j < i && #[trigger] pair_changed(*cached_tags, ps, ls, j) && ps[j].1.contains(a);
                            assert(0 <= j < i + 1);
                        } else {
                            assert(ps[i as int].1.contains(a));
                        }
                    }
                }
                assert forall|q: Seq<char>| #[trigger] opt_string_view(cache.spec_get(q)) == tag_after(*cached_tags, ps, ls, i + 1, q) by {
                    if q != key@ {
                        assert(opt_string_view(c0.spec_get(q)) == tag_after(*cached_tags, ps, ls, i as int, q));
                    }
                }
            }
        } else {
            proof {
                assert(sources.keys().to_set() =~= changed_sources_upto(*cached_tags, ps, ls, i + 1)) by {
                    assert forall|s: Seq<char>| changed_sources_upto(*cached_tags, ps, ls, i + 1).contains(s) implies changed_sources_upto(*cached_tags, ps, ls, i as int).contains(s) by {
                        let j = choose|j: int| 0 <= j < i + 1 && #[trigger] pair_changed(*cached_tags, ps, ls, j) && ps[j].0.0 == s;
                    }
                }
                assert(apps.keys().to_set() =~= changed_apps_upto(*cached_tags, ps, ls, i + 1)) by {
                    assert forall|a: Seq<char>| changed_apps_upto(*cached_tags, ps, ls, i + 1).contains(a) implies changed_apps_upto(*cached_tags, ps, ls, i as int).contains(a) by {
                        let j = choose|j: int| 0 <= j < i + 1 && #[trigger] pair_changed(*cached_tags, ps, ls, j) && ps[j].1.contains(a);
                    }
                }
                assert forall|q: Seq<char>| #[trigger] opt_string_view(cache.spec_get(q)) == tag_after(*cached_tags, ps, ls, i + 1, q) by {
                    assert(opt_string_view(cache.spec_get(q)) == tag_after(*cached_tags, ps, ls, i as int, q));
                }
            }
        }
        i += 1;
    }
    let changed_sources = sources.key_list();
    let changed_apps = apps.key_list();
    proof {
        use_type_invariant(&sources);
        use_type_invariant(&apps);
    }
    (changed_sources, changed_apps, cache)
}

} // verus!
