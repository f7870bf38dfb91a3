//! Per-app configuration.

use vstd::prelude::*;
use crate::text::{
    clone_strings, str_views, string_from_str, title_case, title_case_exec, vec_contains_str,
};

verus! {

/// When a post-patch hook runs.
#[derive(Debug, Clone, Copy, PartialEq, Eq, Structural)]
pub enum HookWhen {
    Root,
    Nonroot,
    Always,
}

impl Default for HookWhen {
    fn default() -> (r: Self)
        ensures
            r == HookWhen::Always,
    {
        HookWhen::Always
    }
}

/// A script run on the patched APK.
#[derive(Debug, Clone)]
pub struct PostPatchHook {
    pub script: String,
    pub when: HookWhen,
    pub optional: bool,
}

/// Apps this app needs installed, either for every mode or per mode.
#[derive(Debug, Clone)]
pub enum AppDependencies {
    Flat(Vec<String>),
    ModeAware { non_root: Vec<String>, root: Vec<String> },
}

impl Default for AppDependencies {
    fn default() -> (r: Self)
        ensures
            r matches AppDependencies::Flat(l) && l@.len() == 0,
    {
        AppDependencies::Flat(Vec::new())
    }
}

impl AppDependencies {
    /// Every dependency named, in declaration order (non-root before root).
    pub open spec fn names(&self) -> Seq<Seq<char>> {
        match self {
            AppDependencies::Flat(l) => str_views(l@),
            AppDependencies::ModeAware { non_root, root } => str_views(non_root@) + str_views(
                root@,
            ),
        }
    }

    /// The dependencies of one mode.
    pub open spec fn mode_names(&self, is_root: bool) -> Seq<Seq<char>> {
        match self {
            AppDependencies::Flat(l) => str_views(l@),
            AppDependencies::ModeAware { non_root, root } => if is_root {
                str_views(root@)
            } else {
                str_views(non_root@)
            },
        }
    }

    /// Whether `dep` is a dependency in any mode.
    pub fn contains(&self, dep: &str) -> (r: bool)
        ensures
            r == self.names().contains(dep@),
    {
        match self {
            AppDependencies::Flat(list) => vec_contains_str(list, dep),
            AppDependencies::ModeAware { non_root, root } => {
                let a = vec_contains_str(non_root, dep);
                let b = vec_contains_str(root, dep);
                proof {
                    let x = str_views(non_root@);
                    let y = str_views(root@);
                    if a {
                        let i = choose|i: int| 0 <= i < x.len() && x[i] == dep@;
                        assert((x + y)[i] == dep@);
                    }
                    if b {
                        let i = choose|i: int| 0 <= i < y.len() && y[i] == dep@;
                        assert((x + y)[x.len() + i] == dep@);
                    }
                    if (x + y).contains(dep@) {
                        let i = choose|i: int| 0 <= i < (x + y).len() && (x + y)[i] == dep@;
                        if i < x.len() {
                            assert(x[i] == dep@);
                        } else {
                            assert(y[i - x.len()] == dep@);
                        }
                    }
                }
                a || b
            },
        }
    }

    /// The dependencies of one mode.
    pub fn for_mode(&self, is_root: bool) -> (r: &[String])
        ensures
            str_views(r@) == self.mode_names(is_root),
    {
        match self {
            AppDependencies::Flat(list) => list.as_slice(),
            AppDependencies::ModeAware { non_root, root } => {
                if is_root {
                    root.as_slice()
                } else {
                    non_root.as_slice()
                }
            },
        }
    }

    /// Every dependency: the flat list as declared, or the distinct names of
    /// both modes.
    pub fn all(&self) -> (r: Vec<String>)
        ensures
            self matches AppDependencies::Flat(l) ==> str_views(r@) == str_views(l@),
            self matches AppDependencies::ModeAware { .. } ==> {
                &&& str_views(r@).no_duplicates()
                &&& str_views(r@).to_set() == self.names().to_set()
            },
    {
        match self {
            AppDependencies::Flat(list) => clone_strings(list),
            AppDependencies::ModeAware { non_root, root } => {
                let mut out: Vec<String> = Vec::new();
                add_distinct(&mut out, non_root);
                add_distinct(&mut out, root);
                proof {
                    let x = str_views(non_root@);
                    let y = str_views(root@);
                    assert((x + y).to_set() =~= x.to_set().union(y.to_set())) by {
                        assert forall|e: Seq<char>| (x + y).contains(e) <==> x.contains(e) || y.contains(e) by {
                            if (x + y).contains(e) {
                                let i = choose|i: int| 0 <= i < (x + y).len() && #[trigger] (x + y)[i] == e;
                                if i < x.len() {
                                    assert(x[i] == e);
                                } else {
                                    assert(y[i - x.len()] == e);
                                }
                            }
                            if x.contains(e) {
                                let i = choose|i: int| 0 <= i < x.len() && #[trigger] x[i] == e;
                                assert((x + y)[i] == e);
                            }
                            if y.contains(e) {
                                let i = choose|i: int| 0 <= i < y.len() && #[trigger] y[i] == e;
                                assert((x + y)[x.len() + i] == e);
                            }
                        }
                    }
                    assert(Seq::<Seq<char>>::empty().to_set() =~= Set::<Seq<char>>::empty());
                    assert(Set::<Seq<char>>::empty().union(x.to_set()) =~= x.to_set());
                }
                out
            },
        }
    }
}

/// Appends the strings of `src` that `out` does not hold yet.
fn add_distinct(out: &mut Vec<String>, src: &Vec<String>)
    requires
        str_views(old(out)@).no_duplicates(),
    ensures
        str_views(final(out)@).no_duplicates(),
        str_views(final(out)@).to_set() == str_views(old(out)@).to_set().union(str_views(src@).to_set()),
{
    let ghost start = str_views(out@).to_set();
    let ghost names = str_views(src@);
    let mut i: usize = 0;
    while i < src.len()
        invariant
            names == str_views(src@),
            i <= src@.len(),
            str_views(out@).no_duplicates(),
            str_views(out@).to_set() == start.union(names.take(i as int).to_set()),
        decreases src.len() - i,
    {
        let d: &String = &src[i];
        let seen = vec_contains_str(out, d.as_str());
        let ghost before = str_views(out@);
        if !seen {
            out.push(string_from_str(d.as_str()));
            proof {
                assert(str_views(out@) =~= before.push(d@));
                assert forall|a: int, b: int|
                    0 <= a < b < str_views(out@).len() implies str_views(out@)[a]
                    != str_views(out@)[b] by {
                    if b == before.len() {
                        assert(before[a] == str_views(out@)[a]);
                    }
                }
            }
        }
        proof {
            let tk0 = names.take(i as int);
            let tk1 = names.take(i + 1);
            let now = str_views(out@);
            assert(names[i as int] == d@);
            assert(tk1 =~= tk0.push(d@));
            assert forall|x: Seq<char>| now.contains(x) <==> (start.contains(x) || tk1.contains(x)) by {
                if tk1.contains(x) {
                    let j = choose|j: int| 0 <= j < tk1.len() && #[trigger] tk1[j] == x;
                    if j < i {
                        assert(tk0[j] == x);
                        assert(tk0.to_set().contains(x));
                        assert(before.to_set().contains(x));
                        let q = choose|q: int| 0 <= q < before.len() && #[trigger] before[q] == x;
                        if !seen {
                            assert(now[q] == x);
                        }
                    } else if seen {
                        assert(before.contains(d@));
                    } else {
                        assert(now[before.len() as int] == x);
                    }
                }
                if start.contains(x) {
                    assert(before.to_set().contains(x));
                    let q = choose|q: int| 0 <= q < before.len() && #[trigger] before[q] == x;
                    if !seen {
                        assert(now[q] == x);
                    }
                }
                if now.contains(x) {
                    let q = choose|q: int| 0 <= q < now.len() && #[trigger] now[q] == x;
                    if q < before.len() {
                        assert(before[q] == x);
                        assert(before.to_set().contains(x));
                        if !start.contains(x) {
                            assert(tk0.to_set().contains(x));
                            let j = choose|j: int| 0 <= j < tk0.len() && #[trigger] tk0[j] == x;
                            assert(tk1[j] == x);
                        }
                    } else {
                        assert(tk1[i as int] == x);
                    }
                }
            }
            assert(now.to_set() =~= start.union(tk1.to_set()));
        }
        i += 1;
    }
    assert(names.take(src@.len() as int) =~= names);
}

/// One configured app.
#[derive(Debug, Clone)]
pub struct AppConfig {
    pub enabled: bool,
    pub package: String,
    pub patch_source: String,
    pub patch_branch: Option<String>,
    pub cli_source: String,
    pub uptodown_url: Option<String>,
    pub apkmirror_url: Option<String>,
    pub archive_url: Option<String>,
    pub apkpure_url: Option<String>,
    pub source_priority: Vec<String>,
    pub apk_source: String,
    pub apk_url: Option<String>,
    pub architectures: Vec<String>,
    pub mode: String,
    pub included_patches: Vec<String>,
    pub excluded_patches: Vec<String>,
    pub patcher_args: Option<String>,
    pub patches_version: Option<String>,
    pub version: Option<String>,
    pub patches: Vec<String>,
    pub keystore: Option<KeystoreRef>,
    pub module: Option<ModuleFlags>,
    pub dependencies: AppDependencies,
    pub description: Option<String>,
    pub min_version: Option<String>,
    pub max_version: Option<String>,
    pub post_patch_hooks: Vec<PostPatchHook>,
    pub display_name: Option<String>,
    pub bundle_priority: u32,
}

/// The name shown for an app: its configured display name, or its id in title case.
pub open spec fn app_display_name(display_name: Option<String>, id: Seq<char>) -> Seq<char> {
    match display_name {
        Some(n) => n@,
        None => title_case(id),
    }
}

impl AppConfig {
    /// The configured display name, or the id title-cased word by word.
    pub fn display_name(&self, id: &str) -> (r: String)
        ensures
            r@ == app_display_name(self.display_name, id@),
    {
        match &self.display_name {
            Some(n) => string_from_str(n.as_str()),
            None => title_case_exec(id),
        }
    }
}

/// Default bundle priority: lower values are packed first.
pub fn default_bundle_priority() -> (r: u32)
    ensures
        r == 100,
{
    100
}

/// Default patcher CLI repository.
pub fn default_cli() -> (r: String)
    ensures
        r@ == "MorpheApp/morphe-desktop"@,
{
    string_from_str("MorpheApp/morphe-desktop")
}

/// Default architectures: a single `arm64-v8a`.
pub fn default_arch() -> (r: Vec<String>)
    ensures
        r@.len() == 1,
        r@[0]@ == "arm64-v8a"@,
{
    let mut v = Vec::new();
    v.push(string_from_str("arm64-v8a"));
    v
}

/// Default build mode.
pub fn default_mode() -> (r: String)
    ensures
        r@ == "full"@,
{
    string_from_str("full")
}

/// A keystore named by an app.
#[derive(Debug, Clone)]
pub struct KeystoreRef {
    pub alias: String,
    pub file: String,
}

/// Default keystore alias.
pub fn default_alias() -> (r: String)
    ensures
        r@ == "revanced"@,
{
    string_from_str("revanced")
}

/// Default keystore file.
pub fn default_keystore_file() -> (r: String)
    ensures
        r@ == "keys/default.jks"@,
{
    string_from_str("keys/default.jks")
}

/// Which module kinds an app takes part in.
#[derive(Debug, Clone, Copy)]
pub struct ModuleFlags {
    pub single: bool,
    pub bundle: bool,
}

/// Default for module flags.
pub fn default_true() -> (r: bool)
    ensures
        r,
{
    true
}

} // verus!
