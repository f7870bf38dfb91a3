//! Which apps get a module of their own, which APK goes into each, and the
//! names it is built under.

use vstd::prelude::*;
use crate::config::loader::Config;
use crate::text::{
    chars_of, ends_with, eq_ignore_case, push_str, replace_char, split, split_ranges, str_eq,
    str_eq_ignore_case, str_ends_with, str_views, string_from_str, string_of, strip_suffixes,
    strip_suffixes_end, trim, pieces, ranges_within, ends_with_in,
};
use crate::config::apps::app_display_name;

verus! {

/// The apps to build single modules for, and whether a failure on one of
/// them is only reported (every-app mode) or ends the run.
pub struct SingleTargets {
    pub ids: Vec<String>,
    pub tolerate_failures: bool,
}

/// An app that takes part in single-module builds of every app: enabled,
/// not microG, and not opted out of single modules.
pub open spec fn single_eligible(cfg: Config, id: Seq<char>) -> bool {
    match cfg.apps.spec_get(id) {
        Some(a) => a.enabled && !eq_ignore_case(id, "microg"@) && match a.module {
            Some(m) => m.single,
            None => true,
        },
        None => false,
    }
}

/// The apps named in a request: comma-separated, trimmed, non-empty, not
/// microG.
pub open spec fn named_apps(request: Seq<char>) -> Seq<Seq<char>> {
    split(request, seq![','], false).map_values(|t: Seq<char>| trim(t)).filter(
        |t: Seq<char>| t.len() > 0 && !eq_ignore_case(t, "microg"@),
    )
}

/// The single-module targets of `apps_input`: for `all` or `all-enabled`
/// every eligible configured app in id order, failures tolerated; else the
/// named apps in order, the first failure ending the run.
pub fn single_targets(cfg: &Config, apps_input: &str) -> (r: SingleTargets)
    ensures
        (apps_input@ == "all"@ || apps_input@ == "all-enabled"@) ==> {
            &&& r.tolerate_failures
            &&& str_views(r.ids@) == cfg.apps.keys().filter(|id: Seq<char>| single_eligible(*cfg, id))
        },
        !(apps_input@ == "all"@ || apps_input@ == "all-enabled"@) ==> {
            &&& !r.tolerate_failures
            &&& str_views(r.ids@) == named_apps(apps_input@)
        },
{
    if str_eq(apps_input, "all") || str_eq(apps_input, "all-enabled") {
        let ghost keys = cfg.apps.keys();
        let ghost pred = |id: Seq<char>| single_eligible(*cfg, id);
        let mut ids: Vec<String> = Vec::new();
        let mut i: usize = 0;
        proof {
            reveal(Seq::filter);
            assert(keys.take(0) =~= Seq::<Seq<char>>::empty());
            assert(str_views(ids@) =~= keys.take(0).filter(pred));
        }
        while i < cfg.apps.len()
            invariant
                i <= cfg.apps@.len(),
                keys == cfg.apps.keys(),
                keys.len() == cfg.apps@.len(),
                pred == (|id: Seq<char>| single_eligible(*cfg, id)),
                str_views(ids@) == keys.take(i as int).filter(pred),
            decreases cfg.apps@.len() - i,
        {
            let id = cfg.apps.key_at(i);
            let app = cfg.apps.value_at(i);
            proof {
                use_type_invariant(&cfg.apps);
                crate::collections::lemma_assoc_get_at(cfg.apps@, i as int);
                assert(keys[i as int] == id@);
                assert(keys.take(i + 1) =~= keys.take(i as int).push(id@));
                keys.take(i as int).lemma_filter_push(id@, pred);
            }
            let take = app.enabled && !str_eq_ignore_case(id.as_str(), "microg") && match &app.module {
                Some(m) => m.single,
                None => true,
            };
            if take {
                let ghost b0 = str_views(ids@);
                ids.push(string_from_str(id.as_str()));
                assert(str_views(ids@) =~= b0.push(id@));
            }
            i += 1;
        }
        assert(keys.take(keys.len() as int) =~= keys);
        return SingleTargets { ids, tolerate_failures: true };
    }
    let ids = crate::module::bundle::bundle_tokens(apps_input);
    SingleTargets { ids, tolerate_failures: false }
}

/// For an APK file name: the app id it is filed under (`-root` and
/// `-patched` endings taken off) and how preferred it is (a root build over
/// a patched one over a plain one); nothing for a file that is no APK.
pub open spec fn single_candidate(file_name: Seq<char>) -> Option<(Seq<char>, u8)> {
    if !ends_with(file_name, ".apk"@) {
        None
    } else {
        let stem = strip_suffixes(file_name, ".apk"@);
        let id = strip_suffixes(strip_suffixes(stem, "-root"@), "-patched"@);
        let prio: u8 = if ends_with(stem, "-root"@) {
            2
        } else if ends_with(stem, "-patched"@) {
            1
        } else {
            0
        };
        Some((id, prio))
    }
}

/// The APK chosen for app `id` among `(path, file name)` pairs in listing
/// order: the first of the most preferred builds.
pub open spec fn single_choice(files: Seq<(Seq<char>, Seq<char>)>, id: Seq<char>) -> Option<(Seq<char>, u8)>
    decreases files.len(),
{
    if files.len() == 0 {
        None
    } else {
        let prev = single_choice(files.drop_last(), id);
        let (path, name) = files.last();
        match single_candidate(name) {
            Some((cid, prio)) if cid == id => match prev {
                Some((_, q)) if prio <= q => prev,
                _ => Some((path, prio)),
            },
            _ => prev,
        }
    }
}

fn candidate_of(name: &str) -> (r: Option<(String, u8)>)
    ensures
        match r {
            Some((id, p)) => single_candidate(name@) == Some((id@, p)),
            None => single_candidate(name@) is None,
        },
{
    if !str_ends_with(name, ".apk") {
        return None;
    }
    let v = chars_of(name);
    let apk = chars_of(".apk");
    let root = chars_of("-root");
    let patched = chars_of("-patched");
    assert(v@.subrange(0, v@.len() as int) =~= v@);
    let e = strip_suffixes_end(v.as_slice(), 0, v.len(), apk.as_slice());
    let ghost stem = v@.subrange(0, e as int);
    assert(stem =~= strip_suffixes(name@, ".apk"@));
    let is_root = ends_with_in(v.as_slice(), 0, e, root.as_slice());
    let is_patched = ends_with_in(v.as_slice(), 0, e, patched.as_slice());
    let e2 = strip_suffixes_end(v.as_slice(), 0, e, root.as_slice());
    let e3 = strip_suffixes_end(v.as_slice(), 0, e2, patched.as_slice());
    proof {
        assert(v@.subrange(0, e2 as int) =~= strip_suffixes(stem, "-root"@));
        assert(v@.subrange(0, e3 as int) =~= strip_suffixes(v@.subrange(0, e2 as int), "-patched"@));
    }
    let id = string_of(v.as_slice(), 0, e3);
    let prio: u8 = if is_root {
        2
    } else if is_patched {
        1
    } else {
        0
    };
    Some((id, prio))
}

/// The APK to build app `id`'s single module from, among the `(path, file
/// name)` pairs of the output directory in listing order; an error naming
/// `dir` when none is there.
pub fn choose_single_apk(files: &Vec<(String, String)>, id: &str, dir: &str) -> (r: Result<String, String>)
    ensures
        match single_choice(files@.map_values(|f: (String, String)| (f.0@, f.1@)), id@) {
            Some((path, _)) => r matches Ok(p) && p@ == path,
            None => r matches Err(m) && m@ == "No APK found for app '"@ + id@ + "' in '"@ + dir@ + "'"@,
        },
{
    let ghost fv = files@.map_values(|f: (String, String)| (f.0@, f.1@));
    let mut best: Option<(String, u8)> = None;
    let mut i: usize = 0;
    assert(fv.take(0) =~= Seq::<(Seq<char>, Seq<char>)>::empty());
    while i < files.len()
        invariant
            i <= files@.len(),
            fv == files@.map_values(|f: (String, String)| (f.0@, f.1@)),
            match single_choice(fv.take(i as int), id@) {
                Some((path, p)) => best matches Some((bp, bq)) && bp@ == path && bq == p,
                None => best is None,
            },
        decreases files.len() - i,
    {
        proof {
            assert(fv.take(i + 1).drop_last() =~= fv.take(i as int));
            assert(fv.take(i + 1).last() == (files@[i as int].0@, files@[i as int].1@));
        }
        let (path, name) = (&files[i].0, &files[i].1);
        match candidate_of(name.as_str()) {
            Some((cid, prio)) => {
                if str_eq(cid.as_str(), id) {
                    let replace = match &best {
                        Some((_, q)) => prio > *q,
                        None => true,
                    };
                    if replace {
                        best = Some((string_from_str(path.as_str()), prio));
                    }
                }
            },
            None => {},
        }
        i += 1;
    }
    assert(fv.take(files@.len() as int) =~= fv);
    match best {
        Some((p, _)) => Ok(p),
        None => {
            let mut m = string_from_str("No APK found for app '");
            push_str(&mut m, id);
            push_str(&mut m, "' in '");
            push_str(&mut m, dir);
            push_str(&mut m, "'");
            Err(m)
        },
    }
}

/// The id, name and archive name of app `id`'s single module.
pub struct SingleModuleNames {
    pub module_id: String,
    pub module_name: String,
    pub zip_name: String,
}

/// The name shown for app `id` in its single module: its display name when
/// configured, else the id with underscores as spaces.
pub open spec fn single_clean_name(cfg: Config, id: Seq<char>) -> Seq<char> {
    match cfg.apps.spec_get(id) {
        Some(a) => app_display_name(a.display_name, id),
        None => id.map_values(|c: char| if c == '_' { ' ' } else { c }),
    }
}

/// `revancex-<id>`, `ReVanceX - <name>` and `revancex-module-<id>.zip`.
pub fn single_module_names(cfg: &Config, id: &str) -> (r: SingleModuleNames)
    ensures
        r.module_id@ == "revancex-"@ + id@,
        r.module_name@ == "ReVanceX - "@ + single_clean_name(*cfg, id@),
        r.zip_name@ == "revancex-module-"@ + id@ + ".zip"@,
{
    let clean = match cfg.apps.get(id) {
        Some(a) => a.display_name(id),
        None => replace_char(id, '_', ' '),
    };
    let mut module_id = string_from_str("revancex-");
    push_str(&mut module_id, id);
    let mut module_name = string_from_str("ReVanceX - ");
    push_str(&mut module_name, clean.as_str());
    let mut zip_name = string_from_str("revancex-module-");
    push_str(&mut zip_name, id);
    push_str(&mut zip_name, ".zip");
    SingleModuleNames { module_id, module_name, zip_name }
}

} // verus!
