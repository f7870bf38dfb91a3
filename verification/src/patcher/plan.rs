//! Which patches to apply: the plan for one app in one mode.

use vstd::prelude::*;
use std::sync::Arc;
use crate::collections::StrMap;
use crate::config::apps::AppConfig;
use crate::patcher::metadata::{PackageCompat, PatchMeta};
use crate::patcher::name::{normalized, rule_matches, MatchRule};
use crate::text::{
    any_ic, lemma_any_ic_views, debug_quoted, lower_seq, not_ic, match_at, debug_str, eq_ignore_case, push_str, retain_not_ic, str_eq,
    str_views, string_from_str, vec_contains_ignore_case, vec_contains_str, clone_strings,
};

verus! {

/// Patcher settings of `build.yaml`.
#[derive(Debug, Clone)]
pub struct PatcherConfig {
    pub max_patch_retries: u32,
    pub auto_disable: String,
    pub rules: PatcherRules,
    pub failure_patterns: Vec<String>,
}

impl Default for PatcherConfig {
    /// Every field at its type's default (zero, empty).
    fn default() -> (r: Self)
        ensures
            r.max_patch_retries == 0,
            r.auto_disable@.len() == 0,
            r.failure_patterns@.len() == 0,
            r.rules.root.exclude@.len() == 0,
            r.rules.nonroot.exclude@.len() == 0,
            r.rules.root.include_if_dependency@.len() == 0,
            r.rules.nonroot.include_if_dependency@.len() == 0,
    {
        PatcherConfig {
            max_patch_retries: 0,
            auto_disable: String::new(),
            rules: PatcherRules::default(),
            failure_patterns: Vec::new(),
        }
    }
}

/// Default number of patch retries.
pub fn default_max_retries() -> (r: u32)
    ensures
        r == 2,
{
    2
}

/// Default auto-disable policy.
pub fn default_auto_disable() -> (r: String)
    ensures
        r@ == "incompatible"@,
{
    string_from_str("incompatible")
}

/// Default patterns that recognise a failing patch in the patcher's output.
pub fn default_failure_patterns() -> (r: Vec<String>)
    ensures
        r@.len() == 3,
        r@[0]@ == "Failed to apply patch\\s+([A-Za-z0-9_-]+)"@,
        r@[1]@ == "([A-Za-z0-9_-]+):\\s*Exception"@,
        r@[2]@ == "Exception in patch\\s+([A-Za-z0-9_-]+)"@,
{
    let mut v = Vec::new();
    v.push(string_from_str("Failed to apply patch\\s+([A-Za-z0-9_-]+)"));
    v.push(string_from_str("([A-Za-z0-9_-]+):\\s*Exception"));
    v.push(string_from_str("Exception in patch\\s+([A-Za-z0-9_-]+)"));
    v
}

/// Rules for root and non-root builds.
#[derive(Debug, Clone)]
pub struct PatcherRules {
    pub root: RuleSet,
    pub nonroot: RuleSet,
}

impl Default for PatcherRules {
    fn default() -> (r: Self)
        ensures
            r.root.exclude@.len() == 0,
            r.nonroot.exclude@.len() == 0,
            r.root.include_if_dependency@.len() == 0,
            r.nonroot.include_if_dependency@.len() == 0,
    {
        PatcherRules { root: RuleSet::default(), nonroot: RuleSet::default() }
    }
}

/// Patches excluded by rule, and patches added when a dependency is present.
#[derive(Debug, Clone)]
pub struct RuleSet {
    pub exclude: Vec<MatchRule>,
    pub include_if_dependency: StrMap<Vec<MatchRule>>,
}

impl Default for RuleSet {
    fn default() -> (r: Self)
        ensures
            r.exclude@.len() == 0,
            r.include_if_dependency@.len() == 0,
    {
        RuleSet { exclude: Vec::new(), include_if_dependency: StrMap::new() }
    }
}

/// Why a patch was left out.
#[derive(Debug, Clone)]
pub enum DisableReason {
    Incompatible { supported: Vec<String>, actual: String },
    RuleExcluded { rule: String },
    FailedAtRuntime { round: u32, message: String },
    Unknown,
}

/// A patch left out, with the reason.
#[derive(Debug, Clone)]
pub struct DisabledPatch {
    pub name: String,
    pub reason: DisableReason,
}

/// The patches to include and exclude.
#[derive(Debug, Clone)]
pub struct PatchPlan {
    pub included: Vec<String>,
    pub excluded: Vec<String>,
    pub auto_disabled: Vec<DisabledPatch>,
    pub warnings: Vec<String>,
}

impl Default for PatchPlan {
    fn default() -> (r: Self)
        ensures
            r.included@.len() == 0,
            r.excluded@.len() == 0,
            r.auto_disabled@.len() == 0,
            r.warnings@.len() == 0,
    {
        PatchPlan {
            included: Vec::new(),
            excluded: Vec::new(),
            auto_disabled: Vec::new(),
            warnings: Vec::new(),
        }
    }
}

// ---------------------------------------------------------------------
// The model of a plan
// ---------------------------------------------------------------------

/// The reason of a disabled patch, with strings taken by view.
pub enum ReasonModel {
    Incompatible { supported: Seq<Seq<char>>, actual: Seq<char> },
    RuleExcluded { rule: Seq<char> },
    FailedAtRuntime { round: u32, message: Seq<char> },
    Unknown,
}

pub open spec fn reason_model(r: DisableReason) -> ReasonModel {
    match r {
        DisableReason::Incompatible { supported, actual } => ReasonModel::Incompatible {
            supported: str_views(supported@),
            actual: actual@,
        },
        DisableReason::RuleExcluded { rule } => ReasonModel::RuleExcluded { rule: rule@ },
        DisableReason::FailedAtRuntime { round, message } => ReasonModel::FailedAtRuntime {
            round,
            message: message@,
        },
        DisableReason::Unknown => ReasonModel::Unknown,
    }
}

pub open spec fn disabled_model(d: Seq<DisabledPatch>) -> Seq<(Seq<char>, ReasonModel)> {
    d.map_values(|x: DisabledPatch| (x.name@, reason_model(x.reason)))
}

/// Included names, excluded names and disabled patches.
pub struct PlanModel {
    pub included: Seq<Seq<char>>,
    pub excluded: Seq<Seq<char>>,
    pub disabled: Seq<(Seq<char>, ReasonModel)>,
}

pub open spec fn plan_model(p: PatchPlan) -> PlanModel {
    PlanModel {
        included: str_views(p.included@),
        excluded: str_views(p.excluded@),
        disabled: disabled_model(p.auto_disabled@),
    }
}

/// The `Debug` text of a rule.
pub open spec fn rule_debug(r: MatchRule) -> Seq<char> {
    match r {
        MatchRule::Equals { equals } => "Equals { equals: "@ + debug_quoted(equals@) + " }"@,
        MatchRule::Contains { contains } => "Contains { contains: "@ + debug_quoted(contains@)
            + " }"@,
        MatchRule::Regex { regex } => "Regex { regex: "@ + debug_quoted(regex@) + " }"@,
    }
}

/// Index of the first rule that selects `name`.
pub open spec fn first_rule(rules: Seq<MatchRule>, name: Seq<char>) -> Option<int>
    decreases rules.len(),
{
    if rules.len() == 0 {
        None
    } else if rule_matches(rules[0], name) {
        Some(0)
    } else {
        match first_rule(rules.drop_first(), name) {
            Some(k) => Some(k + 1),
            None => None,
        }
    }
}

/// Requested patches split into kept ones and ones an exclusion rule removes.
pub open spec fn split_requested(raw: Seq<Seq<char>>, rules: Seq<MatchRule>) -> (
    Seq<Seq<char>>,
    Seq<(Seq<char>, ReasonModel)>,
)
    decreases raw.len(),
{
    if raw.len() == 0 {
        (seq![], seq![])
    } else {
        let prev = split_requested(raw.drop_last(), rules);
        let p = raw.last();
        match first_rule(rules, p) {
            Some(k) => (prev.0, prev.1.push((p, ReasonModel::RuleExcluded { rule: rule_debug(rules[k]) }))),
            None => (prev.0.push(p), prev.1),
        }
    }
}

/// Patches of the bundle that a dependency's rules add, in bundle order,
/// each at most once (up to ASCII case).
pub open spec fn add_dep_patches(inc: Seq<Seq<char>>, patches: Seq<PatchMeta>, rs: Seq<MatchRule>) -> Seq<Seq<char>>
    decreases patches.len(),
{
    if patches.len() == 0 {
        inc
    } else {
        let prev = add_dep_patches(inc, patches.drop_last(), rs);
        let n = patches.last().name@;
        if first_rule(rs, n) is Some && !any_ic(prev, n) {
            prev.push(n)
        } else {
            prev
        }
    }
}

/// Additions for every dependency rule set whose dependency the app has.
pub open spec fn add_deps(
    inc: Seq<Seq<char>>,
    entries: Seq<(Seq<char>, Vec<MatchRule>)>,
    deps: Seq<Seq<char>>,
    meta: Option<Seq<PatchMeta>>,
) -> Seq<Seq<char>>
    decreases entries.len(),
{
    if entries.len() == 0 {
        inc
    } else {
        let prev = add_deps(inc, entries.drop_last(), deps, meta);
        let e = entries.last();
        if deps.contains(e.0) && meta is Some {
            add_dep_patches(prev, meta->0, e.1@)
        } else {
            prev
        }
    }
}

/// Names of `Equals` and `Contains` exclusion rules, each added once (up to ASCII case).
pub open spec fn add_rule_names(exc: Seq<Seq<char>>, rules: Seq<MatchRule>) -> Seq<Seq<char>>
    decreases rules.len(),
{
    if rules.len() == 0 {
        exc
    } else {
        let prev = add_rule_names(exc, rules.drop_last());
        match rules.last() {
            MatchRule::Equals { equals } => if any_ic(prev, equals@) {
                prev
            } else {
                prev.push(equals@)
            },
            MatchRule::Contains { contains } => if any_ic(prev, contains@) {
                prev
            } else {
                prev.push(contains@)
            },
            MatchRule::Regex { .. } => prev,
        }
    }
}

/// The plan state while incompatible patches are removed.
pub struct PlanState {
    pub inc: Seq<Seq<char>>,
    pub exc: Seq<Seq<char>>,
    pub dis: Seq<(Seq<char>, ReasonModel)>,
}

/// One package entry of a patch: if it names the app's package, lists
/// versions, and not the APK's, the patch is disabled.
pub open spec fn compat_step(st: PlanState, n: Seq<char>, c: PackageCompat, pkg: Seq<char>, ver: Seq<char>) -> PlanState {
    if c.name@ == pkg && c.versions@.len() > 0 && !str_views(c.versions@).contains(ver) {
        PlanState {
            inc: st.inc.filter(not_ic(n)),
            exc: if any_ic(st.exc, n) {
                st.exc
            } else {
                st.exc.push(n)
            },
            dis: st.dis.push(
                (n, ReasonModel::Incompatible { supported: str_views(c.versions@), actual: ver }),
            ),
        }
    } else {
        st
    }
}

pub open spec fn compat_steps(st: PlanState, n: Seq<char>, cs: Seq<PackageCompat>, pkg: Seq<char>, ver: Seq<char>) -> PlanState
    decreases cs.len(),
{
    if cs.len() == 0 {
        st
    } else {
        compat_step(compat_steps(st, n, cs.drop_last(), pkg, ver), n, cs.last(), pkg, ver)
    }
}

/// One patch of the bundle: considered when it is included or nothing is.
pub open spec fn patch_step(st: PlanState, p: PatchMeta, pkg: Seq<char>, ver: Seq<char>) -> PlanState {
    if !any_ic(st.inc, p.name@) && st.inc.len() > 0 {
        st
    } else {
        compat_steps(st, p.name@, p.compatible_packages@, pkg, ver)
    }
}

pub open spec fn disable_incompatible(st: PlanState, patches: Seq<PatchMeta>, pkg: Seq<char>, ver: Seq<char>) -> PlanState
    decreases patches.len(),
{
    if patches.len() == 0 {
        st
    } else {
        patch_step(disable_incompatible(st, patches.drop_last(), pkg, ver), patches.last(), pkg, ver)
    }
}

pub open spec fn meta_view(m: Option<&Arc<Vec<PatchMeta>>>) -> Option<Seq<PatchMeta>> {
    match m {
        Some(a) => Some((**a)@),
        None => None,
    }
}

pub open spec fn opt_str_view(o: Option<&str>) -> Option<Seq<char>> {
    match o {
        Some(s) => Some(s@),
        None => None,
    }
}

/// The plan for `app`: requested patches minus rule exclusions, plus
/// dependency additions; exclusions from the app and the rules; and, given
/// patch metadata and the APK version, patches made incompatible moved
/// from included to excluded.
pub open spec fn planned(
    app: AppConfig,
    is_root: bool,
    meta: Option<Seq<PatchMeta>>,
    apk_version: Option<Seq<char>>,
    rules: PatcherRules,
) -> PlanModel {
    let raw = str_views(app.included_patches@) + str_views(app.patches@);
    let mr = if is_root {
        rules.root
    } else {
        rules.nonroot
    };
    let s1 = split_requested(raw, mr.exclude@);
    let inc = add_deps(s1.0, mr.include_if_dependency@, app.dependencies.names(), meta);
    let exc = add_rule_names(str_views(app.excluded_patches@), mr.exclude@);
    let st = PlanState { inc, exc, dis: s1.1 };
    let fin = if meta is Some && apk_version is Some {
        disable_incompatible(st, meta->0, app.package@, apk_version->0)
    } else {
        st
    };
    PlanModel { included: fin.inc, excluded: fin.exc, disabled: fin.dis }
}

// ---------------------------------------------------------------------
// Laws of the plan
// ---------------------------------------------------------------------

proof fn lemma_first_rule_none_all(rules: Seq<MatchRule>, name: Seq<char>, k: int)
    requires
        first_rule(rules, name) is None,
        0 <= k < rules.len(),
    ensures
        !rule_matches(rules[k], name),
    decreases rules.len(),
{
    if k > 0 {
        assert(rules.drop_first()[k - 1] == rules[k]);
        lemma_first_rule_none_all(rules.drop_first(), name, k - 1);
    }
}

proof fn lemma_split_kept(raw: Seq<Seq<char>>, rules: Seq<MatchRule>, p: Seq<char>)
    requires
        split_requested(raw, rules).0.contains(p),
    ensures
        raw.contains(p),
        first_rule(rules, p) is None,
    decreases raw.len(),
{
    let prev = split_requested(raw.drop_last(), rules);
    if prev.0.contains(p) {
        lemma_split_kept(raw.drop_last(), rules, p);
        let j = choose|j: int| 0 <= j < raw.drop_last().len() && raw.drop_last()[j] == p;
        assert(raw[j] == p);
    } else {
        let q = raw.last();
        assert(first_rule(rules, q) is None);
        assert(prev.0.push(q).contains(p));
        let j = choose|j: int| 0 <= j < prev.0.push(q).len() && prev.0.push(q)[j] == p;
        assert(j == prev.0.len());
        assert(raw[raw.len() - 1] == p);
    }
}

proof fn lemma_add_deps_none(inc: Seq<Seq<char>>, entries: Seq<(Seq<char>, Vec<MatchRule>)>, deps: Seq<Seq<char>>)
    ensures
        add_deps(inc, entries, deps, None) == inc,
    decreases entries.len(),
{
    if entries.len() > 0 {
        lemma_add_deps_none(inc, entries.drop_last(), deps);
    }
}

/// A name that `add_rule_names` adds is the name of an `Equals` or `Contains` rule.
pub open spec fn names_rule(rules: Seq<MatchRule>, x: Seq<char>) -> bool {
    exists|k: int|
        0 <= k < rules.len() && match #[trigger] rules[k] {
            MatchRule::Equals { equals } => equals@ == x,
            MatchRule::Contains { contains } => contains@ == x,
            MatchRule::Regex { .. } => false,
        }
}

proof fn lemma_rule_names_origin(exc: Seq<Seq<char>>, rules: Seq<MatchRule>, x: Seq<char>)
    requires
        add_rule_names(exc, rules).contains(x),
    ensures
        exc.contains(x) || names_rule(rules, x),
    decreases rules.len(),
{
    if rules.len() > 0 {
        let prev = add_rule_names(exc, rules.drop_last());
        let k = rules.len() - 1;
        if prev.contains(x) {
            lemma_rule_names_origin(exc, rules.drop_last(), x);
            if names_rule(rules.drop_last(), x) {
                let j = choose|j: int|
                    0 <= j < rules.drop_last().len() && match #[trigger] rules.drop_last()[j] {
                        MatchRule::Equals { equals } => equals@ == x,
                        MatchRule::Contains { contains } => contains@ == x,
                        MatchRule::Regex { .. } => false,
                    };
                assert(rules[j] == rules.drop_last()[j]);
            }
        } else {
            let j = choose|j: int| 0 <= j < add_rule_names(exc, rules).len() && add_rule_names(exc, rules)[j] == x;
            match rules[k] {
                MatchRule::Equals { equals } => {
                    assert(j == prev.len());
                },
                MatchRule::Contains { contains } => {
                    assert(j == prev.len());
                },
                MatchRule::Regex { .. } => {},
            }
        }
    }
}

proof fn lemma_named_rule_matches(rules: Seq<MatchRule>, x: Seq<char>)
    requires
        names_rule(rules, x),
    ensures
        first_rule(rules, x) is Some,
{
    let k = choose|k: int|
        0 <= k < rules.len() && match #[trigger] rules[k] {
            MatchRule::Equals { equals } => equals@ == x,
            MatchRule::Contains { contains } => contains@ == x,
            MatchRule::Regex { .. } => false,
        };
    match rules[k] {
        MatchRule::Equals { equals } => {},
        MatchRule::Contains { contains } => {
            let n = normalized(x);
            assert(n.subrange(0, n.len() as int) =~= n);
            assert(match_at(n, n, 0));
        },
        MatchRule::Regex { .. } => {},
    }
    assert(rule_matches(rules[k], x));
    if first_rule(rules, x) is None {
        lemma_first_rule_none_all(rules, x, k);
    }
}

/// The exclusion and dependency rules of a root or non-root build.
pub open spec fn mode_rules(rules: PatcherRules, is_root: bool) -> RuleSet {
    if is_root {
        rules.root
    } else {
        rules.nonroot
    }
}

/// A dependency rule set of one of the app's dependencies selects the
/// bundle patch named `n`.
pub open spec fn dep_selects(
    entries: Seq<(Seq<char>, Vec<MatchRule>)>,
    deps: Seq<Seq<char>>,
    patches: Seq<PatchMeta>,
    n: Seq<char>,
) -> bool {
    exists|i: int, j: int|
        #![trigger entries[i], patches[j]]
        0 <= i < entries.len() && 0 <= j < patches.len() && deps.contains(entries[i].0)
            && patches[j].name@ == n && first_rule(entries[i].1@, n) is Some
}

/// The plan of `app` adds patch `n` of the bundle `meta` for a dependency.
pub open spec fn dep_added(app: AppConfig, is_root: bool, rules: PatcherRules, meta: Option<Seq<PatchMeta>>, n: Seq<char>) -> bool {
    match meta {
        Some(ps) => dep_selects(mode_rules(rules, is_root).include_if_dependency@, app.dependencies.names(), ps, n),
        None => false,
    }
}

proof fn lemma_dep_patches_origin(prev: Seq<Seq<char>>, ps: Seq<PatchMeta>, rs: Seq<MatchRule>, n: Seq<char>)
    requires
        add_dep_patches(prev, ps, rs).contains(n),
    ensures
        prev.contains(n) || exists|j: int| 0 <= j < ps.len() && #[trigger] ps[j].name@ == n && first_rule(rs, n) is Some,
    decreases ps.len(),
{
    if ps.len() > 0 {
        let before = add_dep_patches(prev, ps.drop_last(), rs);
        let m = ps.last().name@;
        if before.contains(n) {
            lemma_dep_patches_origin(prev, ps.drop_last(), rs, n);
            if !prev.contains(n) {
                let j = choose|j: int| 0 <= j < ps.drop_last().len() && #[trigger] ps.drop_last()[j].name@ == n
                    && first_rule(rs, n) is Some;
                assert(ps[j] == ps.drop_last()[j]);
            }
        } else {
            let k = choose|k: int| 0 <= k < add_dep_patches(prev, ps, rs).len() && add_dep_patches(prev, ps, rs)[k] == n;
            assert(k == before.len());
            assert(ps[ps.len() - 1].name@ == n);
        }
    }
}

proof fn lemma_add_deps_origin(
    inc: Seq<Seq<char>>,
    entries: Seq<(Seq<char>, Vec<MatchRule>)>,
    deps: Seq<Seq<char>>,
    ps: Seq<PatchMeta>,
    n: Seq<char>,
)
    requires
        add_deps(inc, entries, deps, Some(ps)).contains(n),
    ensures
        inc.contains(n) || dep_selects(entries, deps, ps, n),
    decreases entries.len(),
{
    if entries.len() > 0 {
        let d = entries.drop_last();
        let prev = add_deps(inc, d, deps, Some(ps));
        let e = entries.last();
        let last = entries.len() - 1;
        assert(entries[last] == e);
        if deps.contains(e.0) && add_dep_patches(prev, ps, e.1@).contains(n) && !prev.contains(n) {
            lemma_dep_patches_origin(prev, ps, e.1@, n);
            let j = choose|j: int| 0 <= j < ps.len() && #[trigger] ps[j].name@ == n && first_rule(e.1@, n) is Some;
            assert(entries[last] == e && ps[j].name@ == n);
        } else {
            lemma_add_deps_origin(inc, d, deps, ps, n);
            if dep_selects(d, deps, ps, n) {
                let (i, j) = choose|i: int, j: int|
                    #![trigger d[i], ps[j]]
                    0 <= i < d.len() && 0 <= j < ps.len() && deps.contains(d[i].0) && ps[j].name@ == n
                        && first_rule(d[i].1@, n) is Some;
                assert(entries[i] == d[i]);
            }
        }
    }
}

/// No patch of the state is both included and excluded.
pub open spec fn state_disjoint(st: PlanState) -> bool {
    forall|x: Seq<char>| #[trigger] st.inc.contains(x) ==> !st.exc.contains(x)
}

proof fn lemma_compat_step_disjoint(st: PlanState, n: Seq<char>, c: PackageCompat, pkg: Seq<char>, ver: Seq<char>)
    requires
        state_disjoint(st),
    ensures
        state_disjoint(compat_step(st, n, c, pkg, ver)),
{
    let nx = compat_step(st, n, c, pkg, ver);
    if nx != st {
        assert forall|x: Seq<char>| #[trigger] nx.inc.contains(x) implies !nx.exc.contains(x) by {
            st.inc.lemma_filter_contains_rev(not_ic(n), x);
            let k = choose|k: int| 0 <= k < nx.inc.len() && nx.inc[k] == x;
            st.inc.lemma_filter_pred(not_ic(n), k);
            assert(!eq_ignore_case(x, n));
            if x == n {
                assert(lower_seq(x) =~= lower_seq(n));
            }
            if nx.exc.contains(x) && !st.exc.contains(x) {
                let j = choose|j: int| 0 <= j < nx.exc.len() && nx.exc[j] == x;
                assert(j == st.exc.len());
            }
        }
    }
}

proof fn lemma_compat_steps_disjoint(st: PlanState, n: Seq<char>, cs: Seq<PackageCompat>, pkg: Seq<char>, ver: Seq<char>)
    requires
        state_disjoint(st),
    ensures
        state_disjoint(compat_steps(st, n, cs, pkg, ver)),
    decreases cs.len(),
{
    if cs.len() > 0 {
        lemma_compat_steps_disjoint(st, n, cs.drop_last(), pkg, ver);
        lemma_compat_step_disjoint(compat_steps(st, n, cs.drop_last(), pkg, ver), n, cs.last(), pkg, ver);
    }
}

proof fn lemma_disable_disjoint(st: PlanState, patches: Seq<PatchMeta>, pkg: Seq<char>, ver: Seq<char>)
    requires
        state_disjoint(st),
    ensures
        state_disjoint(disable_incompatible(st, patches, pkg, ver)),
    decreases patches.len(),
{
    if patches.len() > 0 {
        lemma_disable_disjoint(st, patches.drop_last(), pkg, ver);
        let mid = disable_incompatible(st, patches.drop_last(), pkg, ver);
        let p = patches.last();
        if !(!any_ic(mid.inc, p.name@) && mid.inc.len() > 0) {
            lemma_compat_steps_disjoint(mid, p.name@, p.compatible_packages@, pkg, ver);
        }
    }
}

/// A patch of `all` named `n` has a compatibility entry for package `pkg`
/// that lists versions, among them not `ver`, exactly `supported`.
pub open spec fn incompatible_by_entry(
    all: Seq<PatchMeta>,
    pkg: Seq<char>,
    ver: Seq<char>,
    n: Seq<char>,
    supported: Seq<Seq<char>>,
) -> bool {
    &&& supported.len() > 0
    &&& !supported.contains(ver)
    &&& exists|p: PatchMeta, c: PackageCompat|
        #![trigger all.contains(p), p.compatible_packages@.contains(c)]
        all.contains(p) && p.name@ == n && p.compatible_packages@.contains(c) && c.name@ == pkg
            && str_views(c.versions@) == supported
}

/// Every patch disabled as incompatible is justified by a compatibility
/// entry for the app's own package that does not list the APK version.
pub open spec fn incompatibilities_justified(
    dis: Seq<(Seq<char>, ReasonModel)>,
    all: Seq<PatchMeta>,
    pkg: Seq<char>,
    ver: Seq<char>,
) -> bool {
    forall|i: int|
        0 <= i < dis.len() ==> match #[trigger] dis[i].1 {
            ReasonModel::Incompatible { supported, actual } => actual == ver && incompatible_by_entry(
                all,
                pkg,
                ver,
                dis[i].0,
                supported,
            ),
            _ => true,
        }
}

proof fn lemma_split_reasons(raw: Seq<Seq<char>>, rules: Seq<MatchRule>)
    ensures
        forall|i: int| 0 <= i < split_requested(raw, rules).1.len() ==> (#[trigger] split_requested(raw, rules).1[i]).1 is RuleExcluded,
    decreases raw.len(),
{
    if raw.len() > 0 {
        lemma_split_reasons(raw.drop_last(), rules);
    }
}

proof fn lemma_compat_steps_justified(
    st: PlanState,
    p: PatchMeta,
    cs: Seq<PackageCompat>,
    all: Seq<PatchMeta>,
    pkg: Seq<char>,
    ver: Seq<char>,
)
    requires
        all.contains(p),
        forall|i: int| 0 <= i < cs.len() ==> p.compatible_packages@.contains(#[trigger] cs[i]),
        incompatibilities_justified(st.dis, all, pkg, ver),
    ensures
        incompatibilities_justified(compat_steps(st, p.name@, cs, pkg, ver).dis, all, pkg, ver),
    decreases cs.len(),
{
    if cs.len() > 0 {
        let d = cs.drop_last();
        assert forall|i: int| 0 <= i < d.len() implies p.compatible_packages@.contains(#[trigger] d[i]) by {
            assert(d[i] == cs[i]);
        }
        lemma_compat_steps_justified(st, p, d, all, pkg, ver);
        let mid = compat_steps(st, p.name@, d, pkg, ver);
        let c = cs.last();
        assert(p.compatible_packages@.contains(cs[cs.len() - 1]));
        let nx = compat_step(mid, p.name@, c, pkg, ver);
        if nx != mid {
            assert forall|i: int| 0 <= i < nx.dis.len() implies match #[trigger] nx.dis[i].1 {
                ReasonModel::Incompatible { supported, actual } => actual == ver && incompatible_by_entry(
                    all,
                    pkg,
                    ver,
                    nx.dis[i].0,
                    supported,
                ),
                _ => true,
            } by {
                if i < mid.dis.len() {
                    assert(nx.dis[i] == mid.dis[i]);
                } else {
                    assert(all.contains(p) && p.compatible_packages@.contains(c));
                }
            }
        }
    }
}

proof fn lemma_disable_justified(st: PlanState, patches: Seq<PatchMeta>, all: Seq<PatchMeta>, pkg: Seq<char>, ver: Seq<char>)
    requires
        forall|i: int| 0 <= i < patches.len() ==> all.contains(#[trigger] patches[i]),
        incompatibilities_justified(st.dis, all, pkg, ver),
    ensures
        incompatibilities_justified(disable_incompatible(st, patches, pkg, ver).dis, all, pkg, ver),
    decreases patches.len(),
{
    if patches.len() > 0 {
        let d = patches.drop_last();
        assert forall|i: int| 0 <= i < d.len() implies all.contains(#[trigger] d[i]) by {
            assert(d[i] == patches[i]);
        }
        lemma_disable_justified(st, d, all, pkg, ver);
        let mid = disable_incompatible(st, d, pkg, ver);
        let p = patches.last();
        assert(all.contains(patches[patches.len() - 1]));
        if !(!any_ic(mid.inc, p.name@) && mid.inc.len() > 0) {
            let cs = p.compatible_packages@;
            assert forall|i: int| 0 <= i < cs.len() implies p.compatible_packages@.contains(#[trigger] cs[i]) by {}
            lemma_compat_steps_justified(mid, p, cs, all, pkg, ver);
        }
    }
}

/// A patch is disabled as incompatible only when patch metadata and the APK
/// version are given, and only by a compatibility entry of that patch for
/// the app's own package which lists versions but not the APK's; entries
/// for other packages never disable a patch. The reason records that
/// entry's versions and the APK version.
pub proof fn lemma_incompatible_only_for_own_package(
    app: AppConfig,
    is_root: bool,
    meta: Option<Seq<PatchMeta>>,
    apk_version: Option<Seq<char>>,
    rules: PatcherRules,
    i: int,
)
    requires
        0 <= i < planned(app, is_root, meta, apk_version, rules).disabled.len(),
        planned(app, is_root, meta, apk_version, rules).disabled[i].1 is Incompatible,
    ensures
        ({
            let d = planned(app, is_root, meta, apk_version, rules).disabled[i];
            &&& meta is Some
            &&& apk_version is Some
            &&& d.1->Incompatible_actual == apk_version->0
            &&& incompatible_by_entry(meta->0, app.package@, apk_version->0, d.0, d.1->Incompatible_supported)
        }),
{
    let raw = str_views(app.included_patches@) + str_views(app.patches@);
    let mr = mode_rules(rules, is_root);
    let s1 = split_requested(raw, mr.exclude@);
    lemma_split_reasons(raw, mr.exclude@);
    if meta is Some && apk_version is Some {
        let all = meta->0;
        let ver = apk_version->0;
        let inc = add_deps(s1.0, mr.include_if_dependency@, app.dependencies.names(), meta);
        let exc = add_rule_names(str_views(app.excluded_patches@), mr.exclude@);
        let st = PlanState { inc, exc, dis: s1.1 };
        assert(incompatibilities_justified(st.dis, all, app.package@, ver)) by {
            assert forall|j: int| 0 <= j < st.dis.len() implies match #[trigger] st.dis[j].1 {
                ReasonModel::Incompatible { supported, actual } => actual == ver && incompatible_by_entry(
                    all,
                    app.package@,
                    ver,
                    st.dis[j].0,
                    supported,
                ),
                _ => true,
            } by {
                assert(s1.1[j].1 is RuleExcluded);
            }
        }
        assert forall|j: int| 0 <= j < all.len() implies all.contains(#[trigger] all[j]) by {}
        lemma_disable_justified(st, all, all, app.package@, ver);
        let d = planned(app, is_root, meta, apk_version, rules).disabled;
        assert(match d[i].1 {
            ReasonModel::Incompatible { supported, actual } => actual == ver && incompatible_by_entry(
                all,
                app.package@,
                ver,
                d[i].0,
                supported,
            ),
            _ => true,
        });
    } else {
        assert(planned(app, is_root, meta, apk_version, rules).disabled == s1.1);
        assert(s1.1[i].1 is RuleExcluded);
    }
}

/// No patch is both included and excluded, with or without patch metadata,
/// as long as the app does not itself exclude a requested patch that the
/// exclusion rules keep, and no patch that a dependency adds is excluded by
/// the app or named by an exclusion rule.
pub proof fn lemma_plan_disjoint(
    app: AppConfig,
    is_root: bool,
    meta: Option<Seq<PatchMeta>>,
    apk_version: Option<Seq<char>>,
    rules: PatcherRules,
    p: Seq<char>,
)
    requires
        forall|q: Seq<char>|
            #![trigger str_views(app.excluded_patches@).contains(q)]
            split_requested(
                str_views(app.included_patches@) + str_views(app.patches@),
                mode_rules(rules, is_root).exclude@,
            ).0.contains(q) ==> !str_views(app.excluded_patches@).contains(q),
        forall|q: Seq<char>|
            #[trigger] dep_added(app, is_root, rules, meta, q) ==> !str_views(app.excluded_patches@).contains(q)
                && !names_rule(mode_rules(rules, is_root).exclude@, q),
        planned(app, is_root, meta, apk_version, rules).included.contains(p),
    ensures
        !planned(app, is_root, meta, apk_version, rules).excluded.contains(p),
{
    let raw = str_views(app.included_patches@) + str_views(app.patches@);
    let mr = mode_rules(rules, is_root);
    let s1 = split_requested(raw, mr.exclude@);
    let deps = app.dependencies.names();
    let inc = add_deps(s1.0, mr.include_if_dependency@, deps, meta);
    let exc0 = str_views(app.excluded_patches@);
    let exc = add_rule_names(exc0, mr.exclude@);
    let st = PlanState { inc, exc, dis: s1.1 };
    assert forall|x: Seq<char>| #[trigger] st.inc.contains(x) implies !st.exc.contains(x) by {
        let from_request = match meta {
            Some(ps) => {
                lemma_add_deps_origin(s1.0, mr.include_if_dependency@, deps, ps, x);
                s1.0.contains(x)
            },
            None => {
                lemma_add_deps_none(s1.0, mr.include_if_dependency@, deps);
                true
            },
        };
        if from_request {
            lemma_split_kept(raw, mr.exclude@, x);
            if exc.contains(x) {
                lemma_rule_names_origin(exc0, mr.exclude@, x);
                if names_rule(mr.exclude@, x) {
                    lemma_named_rule_matches(mr.exclude@, x);
                }
            }
        } else {
            assert(dep_added(app, is_root, rules, meta, x));
            if exc.contains(x) {
                lemma_rule_names_origin(exc0, mr.exclude@, x);
            }
        }
    }
    if meta is Some && apk_version is Some {
        lemma_disable_disjoint(st, meta->0, app.package@, apk_version->0);
    }
}

// ---------------------------------------------------------------------
// Executable parts
// ---------------------------------------------------------------------

proof fn lemma_first_rule_at(rules: Seq<MatchRule>, name: Seq<char>, k: int)
    requires
        0 <= k < rules.len(),
        rule_matches(rules[k], name),
        forall|j: int| 0 <= j < k ==> !rule_matches(#[trigger] rules[j], name),
    ensures
        first_rule(rules, name) == Some(k),
    decreases k,
{
    if k > 0 {
        assert(!rule_matches(rules[0], name));
        lemma_first_rule_at(rules.drop_first(), name, k - 1);
    }
}

proof fn lemma_first_rule_none(rules: Seq<MatchRule>, name: Seq<char>)
    requires
        forall|j: int| 0 <= j < rules.len() ==> !rule_matches(#[trigger] rules[j], name),
    ensures
        first_rule(rules, name) is None,
    decreases rules.len(),
{
    if rules.len() > 0 {
        assert(!rule_matches(rules[0], name));
        lemma_first_rule_none(rules.drop_first(), name);
    }
}

/// Index of the first rule that selects `name`.
fn first_matching_rule(rules: &Vec<MatchRule>, name: &str) -> (r: Option<usize>)
    ensures
        match r {
            Some(k) => k < rules@.len() && first_rule(rules@, name@) == Some(k as int),
            None => first_rule(rules@, name@) is None,
        },
{
    let mut k: usize = 0;
    while k < rules.len()
        invariant
            k <= rules@.len(),
            forall|j: int| 0 <= j < k ==> !rule_matches(#[trigger] rules@[j], name@),
        decreases rules.len() - k,
    {
        if crate::patcher::name::matches(&rules[k], name) {
            proof {
                lemma_first_rule_at(rules@, name@, k as int);
            }
            return Some(k);
        }
        k += 1;
    }
    proof {
        lemma_first_rule_none(rules@, name@);
    }
    None
}

/// The `Debug` text of a rule.
fn rule_debug_exec(rule: &MatchRule) -> (r: String)
    ensures
        r@ == rule_debug(*rule),
{
    match rule {
        MatchRule::Equals { equals } => {
            let mut s = string_from_str("Equals { equals: ");
            let d = debug_str(equals.as_str());
            push_str(&mut s, d.as_str());
            push_str(&mut s, " }");
            s
        },
        MatchRule::Contains { contains } => {
            let mut s = string_from_str("Contains { contains: ");
            let d = debug_str(contains.as_str());
            push_str(&mut s, d.as_str());
            push_str(&mut s, " }");
            s
        },
        MatchRule::Regex { regex } => {
            let mut s = string_from_str("Regex { regex: ");
            let d = debug_str(regex.as_str());
            push_str(&mut s, d.as_str());
            push_str(&mut s, " }");
            s
        },
    }
}

/// Whether the list holds `n` up to ASCII case.
fn contains_ic(v: &Vec<String>, n: &str) -> (r: bool)
    ensures
        r == any_ic(str_views(v@), n@),
{
    proof {
        lemma_any_ic_views(v@, n@);
    }
    vec_contains_ignore_case(v, n)
}

/// Appends the requested patches, moving those an exclusion rule selects
/// to the disabled list.
fn apply_exclusions(plan: &mut PatchPlan, raw: &Vec<String>, rules: &Vec<MatchRule>)
    requires
        str_views(old(plan).included@) == Seq::<Seq<char>>::empty(),
        disabled_model(old(plan).auto_disabled@) == Seq::<(Seq<char>, ReasonModel)>::empty(),
    ensures
        str_views(final(plan).included@) == split_requested(str_views(raw@), rules@).0,
        disabled_model(final(plan).auto_disabled@) == split_requested(str_views(raw@), rules@).1,
        final(plan).excluded == old(plan).excluded,
        final(plan).warnings == old(plan).warnings,
{
    let ghost rv = str_views(raw@);
    let mut k: usize = 0;
    while k < raw.len()
        invariant
            k <= raw@.len(),
            rv == str_views(raw@),
            plan.excluded == old(plan).excluded,
            plan.warnings == old(plan).warnings,
            str_views(plan.included@) == split_requested(rv.take(k as int), rules@).0,
            disabled_model(plan.auto_disabled@) == split_requested(rv.take(k as int), rules@).1,
        decreases raw.len() - k,
    {
        let patch = &raw[k];
        proof {
            assert(rv.take(k + 1).drop_last() =~= rv.take(k as int));
            assert(rv.take(k + 1).last() == patch@);
        }
        let ghost inc0 = str_views(plan.included@);
        let ghost dis0 = disabled_model(plan.auto_disabled@);
        match first_matching_rule(rules, patch.as_str()) {
            Some(j) => {
                let desc = rule_debug_exec(&rules[j]);
                plan.auto_disabled.push(
                    DisabledPatch {
                        name: string_from_str(patch.as_str()),
                        reason: DisableReason::RuleExcluded { rule: desc },
                    },
                );
                assert(disabled_model(plan.auto_disabled@) =~= dis0.push(
                    (patch@, ReasonModel::RuleExcluded { rule: rule_debug(rules@[j as int]) }),
                ));
            },
            None => {
                plan.included.push(string_from_str(patch.as_str()));
                assert(str_views(plan.included@) =~= inc0.push(patch@));
            },
        }
        k += 1;
    }
    assert(rv.take(raw@.len() as int) =~= rv);
}

/// Adds the bundle's patches that one dependency's rules select.
fn apply_dep_rules(plan: &mut PatchPlan, patches: &Vec<PatchMeta>, rs: &Vec<MatchRule>)
    ensures
        str_views(final(plan).included@) == add_dep_patches(str_views(old(plan).included@), patches@, rs@),
        final(plan).excluded == old(plan).excluded,
        final(plan).auto_disabled == old(plan).auto_disabled,
        final(plan).warnings == old(plan).warnings,
{
    let ghost inc_start = str_views(plan.included@);
    let mut k: usize = 0;
    while k < patches.len()
        invariant
            k <= patches@.len(),
            plan.excluded == old(plan).excluded,
            plan.auto_disabled == old(plan).auto_disabled,
            plan.warnings == old(plan).warnings,
            inc_start == str_views(old(plan).included@),
            str_views(plan.included@) == add_dep_patches(inc_start, patches@.take(k as int), rs@),
        decreases patches.len() - k,
    {
        let patch = &patches[k];
        proof {
            assert(patches@.take(k + 1).drop_last() =~= patches@.take(k as int));
            assert(patches@.take(k + 1).last() == *patch);
        }
        let hit = first_matching_rule(rs, patch.name.as_str());
        let present = contains_ic(&plan.included, patch.name.as_str());
        if hit.is_some() && !present {
            let ghost inc0 = str_views(plan.included@);
            plan.included.push(string_from_str(patch.name.as_str()));
            assert(str_views(plan.included@) =~= inc0.push(patch.name@));
        }
        k += 1;
    }
    assert(patches@.take(patches@.len() as int) =~= patches@);
}

/// Adds the excluded names of `Equals` and `Contains` rules.
fn apply_rule_names(excluded: &mut Vec<String>, rules: &Vec<MatchRule>)
    ensures
        str_views(final(excluded)@) == add_rule_names(str_views(old(excluded)@), rules@),
{
    let ghost start = str_views(excluded@);
    let mut k: usize = 0;
    while k < rules.len()
        invariant
            k <= rules@.len(),
            start == str_views(old(excluded)@),
            str_views(excluded@) == add_rule_names(start, rules@.take(k as int)),
        decreases rules.len() - k,
    {
        proof {
            assert(rules@.take(k + 1).drop_last() =~= rules@.take(k as int));
            assert(rules@.take(k + 1).last() == rules@[k as int]);
        }
        let ghost ex0 = str_views(excluded@);
        match &rules[k] {
            MatchRule::Equals { equals: name } => {
                if !contains_ic(excluded, name.as_str()) {
                    excluded.push(string_from_str(name.as_str()));
                    assert(str_views(excluded@) =~= ex0.push(name@));
                }
            },
            MatchRule::Contains { contains: name } => {
                if !contains_ic(excluded, name.as_str()) {
                    excluded.push(string_from_str(name.as_str()));
                    assert(str_views(excluded@) =~= ex0.push(name@));
                }
            },
            MatchRule::Regex { .. } => {},
        }
        k += 1;
    }
    assert(rules@.take(rules@.len() as int) =~= rules@);
}

pub open spec fn state_of(p: PatchPlan) -> PlanState {
    PlanState {
        inc: str_views(p.included@),
        exc: str_views(p.excluded@),
        dis: disabled_model(p.auto_disabled@),
    }
}

/// Disables the patch for every package entry that rules the APK version out.
fn apply_compat(plan: &mut PatchPlan, name: &String, cs: &Vec<PackageCompat>, pkg: &String, ver: &str)
    ensures
        state_of(*final(plan)) == compat_steps(state_of(*old(plan)), name@, cs@, pkg@, ver@),
        final(plan).warnings == old(plan).warnings,
{
    let ghost st0 = state_of(*plan);
    let mut k: usize = 0;
    while k < cs.len()
        invariant
            k <= cs@.len(),
            st0 == state_of(*old(plan)),
            plan.warnings == old(plan).warnings,
            state_of(*plan) == compat_steps(st0, name@, cs@.take(k as int), pkg@, ver@),
        decreases cs.len() - k,
    {
        let c = &cs[k];
        proof {
            assert(cs@.take(k + 1).drop_last() =~= cs@.take(k as int));
            assert(cs@.take(k + 1).last() == *c);
        }
        let same_pkg = str_eq(c.name.as_str(), pkg.as_str());
        let listed = vec_contains_str(&c.versions, ver);
        if same_pkg && c.versions.len() > 0 && !listed {
            let ghost before = state_of(*plan);
            plan.auto_disabled.push(
                DisabledPatch {
                    name: string_from_str(name.as_str()),
                    reason: DisableReason::Incompatible {
                        supported: clone_strings(&c.versions),
                        actual: string_from_str(ver),
                    },
                },
            );
            if !contains_ic(&plan.excluded, name.as_str()) {
                plan.excluded.push(string_from_str(name.as_str()));
            }
            let kept = retain_not_ic(&plan.included, name.as_str());
            plan.included = kept;
            proof {
                assert(disabled_model(plan.auto_disabled@) =~= before.dis.push(
                    (name@, ReasonModel::Incompatible { supported: str_views(c.versions@), actual: ver@ }),
                ));
                let after = state_of(*plan);
                let expect = compat_step(before, name@, *c, pkg@, ver@);
                assert(after.inc == expect.inc);
                assert(after.exc =~= expect.exc);
                assert(after.dis == expect.dis);
            }
        }
        k += 1;
    }
    assert(cs@.take(cs@.len() as int) =~= cs@);
}

/// Moves patches that do not support `ver` from included to excluded.
fn apply_incompatible(plan: &mut PatchPlan, patches: &Vec<PatchMeta>, pkg: &String, ver: &str)
    ensures
        state_of(*final(plan)) == disable_incompatible(state_of(*old(plan)), patches@, pkg@, ver@),
        final(plan).warnings == old(plan).warnings,
{
    let ghost st0 = state_of(*plan);
    let mut k: usize = 0;
    while k < patches.len()
        invariant
            k <= patches@.len(),
            st0 == state_of(*old(plan)),
            plan.warnings == old(plan).warnings,
            state_of(*plan) == disable_incompatible(st0, patches@.take(k as int), pkg@, ver@),
        decreases patches.len() - k,
    {
        let p = &patches[k];
        proof {
            assert(patches@.take(k + 1).drop_last() =~= patches@.take(k as int));
            assert(patches@.take(k + 1).last() == *p);
        }
        let is_included = contains_ic(&plan.included, p.name.as_str());
        if is_included || plan.included.len() == 0 {
            apply_compat(plan, &p.name, &p.compatible_packages, pkg, ver);
        }
        k += 1;
    }
    assert(patches@.take(patches@.len() as int) =~= patches@);
}

/// The patch plan of `app` for a root or non-root build.
pub fn resolve(
    app: &AppConfig,
    is_root: bool,
    patch_meta: Option<&Arc<Vec<PatchMeta>>>,
    apk_version: Option<&str>,
    rules: &PatcherRules,
) -> (plan: PatchPlan)
    ensures
        plan_model(plan) == planned(*app, is_root, meta_view(patch_meta), opt_str_view(apk_version), *rules),
        plan.warnings@.len() == 0,
{
    let mut plan = PatchPlan::default();
    let mut raw_included = clone_strings(&app.included_patches);
    let extra = clone_strings(&app.patches);
    let mut i: usize = 0;
    let ghost r0 = str_views(raw_included@);
    while i < extra.len()
        invariant
            i <= extra@.len(),
            str_views(raw_included@) == r0 + str_views(extra@).take(i as int),
        decreases extra.len() - i,
    {
        let ghost before = str_views(raw_included@);
        raw_included.push(string_from_str(extra[i].as_str()));
        proof {
            let ex = str_views(extra@);
            assert(str_views(raw_included@) =~= before.push(extra@[i as int]@));
            assert(ex.take(i + 1) =~= ex.take(i as int).push(ex[i as int]));
            assert(r0 + ex.take(i + 1) =~= (r0 + ex.take(i as int)).push(ex[i as int]));
        }
        i += 1;
    }
    assert(str_views(extra@).take(extra@.len() as int) =~= str_views(extra@));
    let mode_rules = if is_root {
        &rules.root
    } else {
        &rules.nonroot
    };
    assert(str_views(plan.included@) =~= Seq::<Seq<char>>::empty());
    assert(disabled_model(plan.auto_disabled@) =~= Seq::<(Seq<char>, ReasonModel)>::empty());
    apply_exclusions(&mut plan, &raw_included, &mode_rules.exclude);
    let ghost inc1 = str_views(plan.included@);
    let ghost dis1 = plan.auto_disabled@;
    let deps = &mode_rules.include_if_dependency;
    let mut d: usize = 0;
    while d < deps.len()
        invariant
            d <= deps@.len(),
            plan.warnings@.len() == 0,
            plan.auto_disabled@ == dis1,
            str_views(plan.included@) == add_deps(inc1, deps@.take(d as int), app.dependencies.names(), meta_view(patch_meta)),
        decreases deps@.len() - d,
    {
        proof {
            assert(deps@.take(d + 1).drop_last() =~= deps@.take(d as int));
        }
        let dep_name = deps.key_at(d);
        let inc_rules = deps.value_at(d);
        if app.dependencies.contains(dep_name.as_str()) {
            if let Some(patches) = patch_meta {
                let pv: &Vec<PatchMeta> = &**patches;
                apply_dep_rules(&mut plan, pv, inc_rules);
            }
        }
        d += 1;
    }
    assert(deps@.take(deps@.len() as int) =~= deps@);
    let mut excluded = clone_strings(&app.excluded_patches);
    apply_rule_names(&mut excluded, &mode_rules.exclude);
    plan.excluded = excluded;
    let ghost raw = str_views(app.included_patches@) + str_views(app.patches@);
    assert(str_views(raw_included@) == raw);
    assert(str_views(plan.included@) == add_deps(
        split_requested(raw, mode_rules.exclude@).0,
        mode_rules.include_if_dependency@,
        app.dependencies.names(),
        meta_view(patch_meta),
    ));
    assert(str_views(plan.excluded@) == add_rule_names(str_views(app.excluded_patches@), mode_rules.exclude@));
    assert(disabled_model(plan.auto_disabled@) == split_requested(raw, mode_rules.exclude@).1);
    if let Some(patches) = patch_meta {
        if let Some(apk_ver) = apk_version {
            let pv: &Vec<PatchMeta> = &**patches;
            apply_incompatible(&mut plan, pv, &app.package, apk_ver);
        }
    }
    plan
}

} // verus!
