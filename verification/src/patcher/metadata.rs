//! What the patch bundle says about its patches: reading the patcher's
//! `list-patches` output, and the versions the patches support.

use vstd::prelude::*;
use crate::config::apps::AppConfig;
use crate::config::loader::Config;
use crate::utils::version_order::{
    compare_sign, lemma_order_antisymmetric, lemma_order_transitive, order_versions, version_parts,
};
use crate::text::{
    any_ic, concat2, distinct_ids, opt_string_view, push_str, replace_char, position_of_str, lemma_any_ic_views, lemma_distinct_contains, vec_contains_ignore_case, chars_of, line_ranges, lines, pieces, ranges_within, starts_with, starts_with_in, str_views,
    str_eq, string_from_str, string_of, trim, trim_range, vec_contains_str,
};

verus! {

/// One patch of a bundle.
#[derive(Debug, Clone)]
pub struct PatchMeta {
    pub name: String,
    pub description: String,
    pub compatible_packages: Vec<PackageCompat>,
}

/// A package a patch applies to, with the versions it supports
/// (none listed: any version).
#[derive(Debug, Clone)]
pub struct PackageCompat {
    pub name: String,
    pub versions: Vec<String>,
}

/// A package entry with its strings taken by view.
pub struct CompatModel {
    pub name: Seq<char>,
    pub versions: Seq<Seq<char>>,
}

/// A patch with its strings taken by view.
pub struct MetaModel {
    pub name: Seq<char>,
    pub description: Seq<char>,
    pub packages: Seq<CompatModel>,
}

pub open spec fn compat_model(c: PackageCompat) -> CompatModel {
    CompatModel { name: c.name@, versions: str_views(c.versions@) }
}

pub open spec fn compats_model(cs: Seq<PackageCompat>) -> Seq<CompatModel> {
    cs.map_values(|c: PackageCompat| compat_model(c))
}

pub open spec fn meta_model(p: PatchMeta) -> MetaModel {
    MetaModel {
        name: p.name@,
        description: p.description@,
        packages: compats_model(p.compatible_packages@),
    }
}

pub open spec fn metas_model(ps: Seq<PatchMeta>) -> Seq<MetaModel> {
    ps.map_values(|p: PatchMeta| meta_model(p))
}

// ---------------------------------------------------------------------
// Reading `list-patches` output
// ---------------------------------------------------------------------

/// What has been read so far: finished patches, and the patch and package
/// being read.
pub struct ListState {
    pub patches: Seq<MetaModel>,
    pub name: Seq<char>,
    pub desc: Seq<char>,
    pub packages: Seq<CompatModel>,
    pub pkg_name: Seq<char>,
    pub pkg_versions: Seq<Seq<char>>,
    pub in_compat: bool,
}

pub open spec fn list_start() -> ListState {
    ListState {
        patches: seq![],
        name: seq![],
        desc: seq![],
        packages: seq![],
        pkg_name: seq![],
        pkg_versions: seq![],
        in_compat: false,
    }
}

/// Ends the package being read, if it has a name.
pub open spec fn flush_pkg(st: ListState) -> ListState {
    if st.pkg_name.len() > 0 {
        ListState {
            packages: st.packages.push(CompatModel { name: st.pkg_name, versions: st.pkg_versions }),
            pkg_name: seq![],
            pkg_versions: seq![],
            ..st
        }
    } else {
        st
    }
}

/// Ends the package and the patch being read, if the patch has a name.
pub open spec fn flush_patch(st: ListState) -> ListState {
    let f = flush_pkg(st);
    if f.name.len() > 0 {
        ListState {
            patches: f.patches.push(MetaModel { name: f.name, description: f.desc, packages: f.packages }),
            name: seq![],
            desc: seq![],
            packages: seq![],
            ..f
        }
    } else {
        f
    }
}

/// The trimmed text after a prefix.
pub open spec fn after_prefix(t: Seq<char>, p: Seq<char>) -> Seq<char> {
    trim(t.skip(p.len() as int))
}

/// One line of output.
pub open spec fn list_step(st: ListState, line: Seq<char>) -> ListState {
    let t = trim(line);
    if starts_with(t, "Name:"@) {
        ListState { name: after_prefix(t, "Name:"@), in_compat: false, ..flush_patch(st) }
    } else if starts_with(t, "Description:"@) {
        ListState { desc: after_prefix(t, "Description:"@), ..st }
    } else if starts_with(t, "Package name:"@) {
        ListState { pkg_name: after_prefix(t, "Package name:"@), in_compat: false, ..flush_pkg(st) }
    } else if starts_with(t, "Compatible versions:"@) {
        ListState { in_compat: true, ..st }
    } else if st.in_compat {
        if t.len() == 0 || starts_with(t, "Version codes:"@) || starts_with(t, "Index:"@)
            || starts_with(t, "Name:"@) || starts_with(t, "Package name:"@) {
            ListState { in_compat: false, ..st }
        } else if st.pkg_versions.contains(t) {
            st
        } else {
            ListState { pkg_versions: st.pkg_versions.push(t), ..st }
        }
    } else {
        st
    }
}

pub open spec fn list_fold(ls: Seq<Seq<char>>) -> ListState
    decreases ls.len(),
{
    if ls.len() == 0 {
        list_start()
    } else {
        list_step(list_fold(ls.drop_last()), ls.last())
    }
}

/// The patches that the output describes.
pub open spec fn listed_patches(text: Seq<char>) -> Seq<MetaModel> {
    flush_patch(list_fold(lines(text))).patches
}

/// The reader's state in executable form.
struct ListParser {
    patches: Vec<PatchMeta>,
    name: String,
    desc: String,
    packages: Vec<PackageCompat>,
    pkg_name: String,
    pkg_versions: Vec<String>,
    in_compat: bool,
}

spec fn parser_model(p: ListParser) -> ListState {
    ListState {
        patches: metas_model(p.patches@),
        name: p.name@,
        desc: p.desc@,
        packages: compats_model(p.packages@),
        pkg_name: p.pkg_name@,
        pkg_versions: str_views(p.pkg_versions@),
        in_compat: p.in_compat,
    }
}

impl ListParser {
    fn flush_pkg(&mut self)
        ensures
            parser_model(*final(self)) == flush_pkg(parser_model(*old(self))),
    {
        if !self.pkg_name.as_str().is_empty() {
            let ghost m0 = parser_model(*self);
            let mut name = String::new();
            std::mem::swap(&mut name, &mut self.pkg_name);
            let mut versions: Vec<String> = Vec::new();
            std::mem::swap(&mut versions, &mut self.pkg_versions);
            self.packages.push(PackageCompat { name, versions });
            proof {
                assert(compats_model(self.packages@) =~= m0.packages.push(
                    CompatModel { name: m0.pkg_name, versions: m0.pkg_versions },
                ));
                assert(str_views(self.pkg_versions@) =~= Seq::<Seq<char>>::empty());
                assert(parser_model(*self) =~= flush_pkg(m0));
            }
        }
    }

    fn flush_patch(&mut self)
        ensures
            parser_model(*final(self)) == flush_patch(parser_model(*old(self))),
    {
        self.flush_pkg();
        if !self.name.as_str().is_empty() {
            let ghost m0 = parser_model(*self);
            let mut name = String::new();
            std::mem::swap(&mut name, &mut self.name);
            let mut description = String::new();
            std::mem::swap(&mut description, &mut self.desc);
            let mut compatible_packages: Vec<PackageCompat> = Vec::new();
            std::mem::swap(&mut compatible_packages, &mut self.packages);
            self.patches.push(PatchMeta { name, description, compatible_packages });
            proof {
                assert(metas_model(self.patches@) =~= m0.patches.push(
                    MetaModel { name: m0.name, description: m0.desc, packages: m0.packages },
                ));
                assert(compats_model(self.packages@) =~= Seq::<CompatModel>::empty());
                assert(parser_model(*self) =~= ListState {
                    patches: m0.patches.push(
                        MetaModel { name: m0.name, description: m0.desc, packages: m0.packages },
                    ),
                    name: seq![],
                    desc: seq![],
                    packages: seq![],
                    ..m0
                });
            }
        }
    }
}

/// The trimmed text of `v[lo..hi]` after a prefix of `k` characters.
fn rest_after(v: &[char], lo: usize, hi: usize, k: usize) -> (r: String)
    requires
        lo <= hi <= v@.len(),
        k <= hi - lo,
    ensures
        r@ == trim(v@.subrange(lo as int, hi as int).skip(k as int)),
{
    let (a, b) = trim_range(v, lo + k, hi);
    assert(v@.subrange(lo as int, hi as int).skip(k as int) =~= v@.subrange(lo + k, hi as int));
    string_of(v, a, b)
}

/// Reads one line, `v[lo..hi]`.
fn list_line(p: &mut ListParser, v: &[char], lo: usize, hi: usize, pats: &Vec<Vec<char>>)
    requires
        lo <= hi <= v@.len(),
        pats@.len() == 6,
        pats@[0]@ == "Name:"@,
        pats@[1]@ == "Description:"@,
        pats@[2]@ == "Package name:"@,
        pats@[3]@ == "Compatible versions:"@,
        pats@[4]@ == "Version codes:"@,
        pats@[5]@ == "Index:"@,
    ensures
        parser_model(*final(p)) == list_step(parser_model(*old(p)), v@.subrange(lo as int, hi as int)),
{
    let (ta, tb) = trim_range(v, lo, hi);
    let ghost t = v@.subrange(ta as int, tb as int);
    let ghost m0 = parser_model(*p);
    if starts_with_in(v, ta, tb, pats[0].as_slice()) {
        p.flush_patch();
        p.name = rest_after(v, ta, tb, pats[0].len());
        p.in_compat = false;
        assert(parser_model(*p) =~= list_step(m0, v@.subrange(lo as int, hi as int)));
    } else if starts_with_in(v, ta, tb, pats[1].as_slice()) {
        p.desc = rest_after(v, ta, tb, pats[1].len());
        assert(parser_model(*p) =~= list_step(m0, v@.subrange(lo as int, hi as int)));
    } else if starts_with_in(v, ta, tb, pats[2].as_slice()) {
        p.flush_pkg();
        p.pkg_name = rest_after(v, ta, tb, pats[2].len());
        p.in_compat = false;
        assert(parser_model(*p) =~= list_step(m0, v@.subrange(lo as int, hi as int)));
    } else if starts_with_in(v, ta, tb, pats[3].as_slice()) {
        p.in_compat = true;
        assert(parser_model(*p) =~= list_step(m0, v@.subrange(lo as int, hi as int)));
    } else if p.in_compat {
        if ta == tb || starts_with_in(v, ta, tb, pats[4].as_slice()) || starts_with_in(
            v,
            ta,
            tb,
            pats[5].as_slice(),
        ) || starts_with_in(v, ta, tb, pats[0].as_slice()) || starts_with_in(
            v,
            ta,
            tb,
            pats[2].as_slice(),
        ) {
            p.in_compat = false;
            assert(parser_model(*p) =~= list_step(m0, v@.subrange(lo as int, hi as int)));
        } else {
            let line = string_of(v, ta, tb);
            if !vec_contains_str(&p.pkg_versions, line.as_str()) {
                p.pkg_versions.push(line);
                assert(str_views(p.pkg_versions@) =~= m0.pkg_versions.push(t));
                assert(parser_model(*p) =~= list_step(m0, v@.subrange(lo as int, hi as int)));
            }
        }
    }
}

/// Reads the output of the patcher's `list-patches`: each `Name:` line starts
/// a patch, `Description:` sets its description, each `Package name:` starts
/// a package entry, and the lines after `Compatible versions:` up to a blank
/// or another heading are the entry's versions, each kept once.
pub fn parse_list_patches_output(text: &str) -> (r: Vec<PatchMeta>)
    ensures
        metas_model(r@) == listed_patches(text@),
{
    let v = chars_of(text);
    let rs = line_ranges(v.as_slice(), 0, v.len());
    assert(v@.subrange(0, v@.len() as int) =~= v@);
    let mut pats: Vec<Vec<char>> = Vec::new();
    pats.push(chars_of("Name:"));
    pats.push(chars_of("Description:"));
    pats.push(chars_of("Package name:"));
    pats.push(chars_of("Compatible versions:"));
    pats.push(chars_of("Version codes:"));
    pats.push(chars_of("Index:"));
    let mut p = ListParser {
        patches: Vec::new(),
        name: String::new(),
        desc: String::new(),
        packages: Vec::new(),
        pkg_name: String::new(),
        pkg_versions: Vec::new(),
        in_compat: false,
    };
    let ghost ls = lines(text@);
    proof {
        assert(metas_model(p.patches@) =~= Seq::<MetaModel>::empty());
        assert(compats_model(p.packages@) =~= Seq::<CompatModel>::empty());
        assert(str_views(p.pkg_versions@) =~= Seq::<Seq<char>>::empty());
        assert(parser_model(p) =~= list_start());
        assert(ls.take(0) =~= Seq::<Seq<char>>::empty());
    }
    let mut i: usize = 0;
    while i < rs.len()
        invariant
            i <= rs@.len(),
            v@ == text@,
            ls == lines(text@),
            pieces(v@, rs@) == ls,
            ranges_within(rs@, 0, v@.len() as int),
            pats@.len() == 6,
            pats@[0]@ == "Name:"@,
            pats@[1]@ == "Description:"@,
            pats@[2]@ == "Package name:"@,
            pats@[3]@ == "Compatible versions:"@,
            pats@[4]@ == "Version codes:"@,
            pats@[5]@ == "Index:"@,
            parser_model(p) == list_fold(ls.take(i as int)),
        decreases rs.len() - i,
    {
        let (a, b) = rs[i];
        proof {
            assert(0 <= rs@[i as int].0 <= rs@[i as int].1 <= v@.len());
            assert(ls[i as int] == v@.subrange(a as int, b as int));
            assert(ls.take(i + 1).drop_last() =~= ls.take(i as int));
            assert(ls.take(i + 1).last() == ls[i as int]);
        }
        list_line(&mut p, v.as_slice(), a, b, &pats);
        i += 1;
    }
    assert(ls.take(rs@.len() as int) =~= ls);
    p.flush_patch();
    p.patches
}

// ---------------------------------------------------------------------
// The versions most patches support
// ---------------------------------------------------------------------

/// Whether a patch takes part: every patch when no list is given, else the
/// patches named in it (ASCII case ignored).
pub open spec fn patch_enabled(enabled: Seq<Seq<char>>, name: Seq<char>) -> bool {
    enabled.len() == 0 || any_ic(enabled, name)
}

/// The versions that a patch's entries for `package` list, in order.
pub open spec fn entry_versions(cs: Seq<PackageCompat>, package: Seq<char>) -> Seq<Seq<char>>
    decreases cs.len(),
{
    if cs.len() == 0 {
        seq![]
    } else {
        entry_versions(cs.drop_last(), package) + if cs.last().name@ == package {
            str_views(cs.last().versions@)
        } else {
            seq![]
        }
    }
}

/// Every version listed for `package` by the patches that take part.
pub open spec fn version_pool(patches: Seq<PatchMeta>, package: Seq<char>, enabled: Seq<Seq<char>>) -> Seq<Seq<char>>
    decreases patches.len(),
{
    if patches.len() == 0 {
        seq![]
    } else {
        version_pool(patches.drop_last(), package, enabled) + if patch_enabled(enabled, patches.last().name@) {
            entry_versions(patches.last().compatible_packages@, package)
        } else {
            seq![]
        }
    }
}

/// How often `x` occurs.
pub open spec fn occurrences(s: Seq<Seq<char>>, x: Seq<char>) -> nat
    decreases s.len(),
{
    if s.len() == 0 {
        0
    } else {
        occurrences(s.drop_last(), x) + if s.last() == x {
            1nat
        } else {
            0nat
        }
    }
}

/// Selects the entries that occur in `pool` at least as often as any other.
pub open spec fn most_listed_at(pool: Seq<Seq<char>>) -> spec_fn(Seq<char>) -> bool {
    |x: Seq<char>| forall|y: Seq<char>| pool.contains(y) ==> occurrences(pool, y) <= occurrences(pool, x)
}

/// The entries listed most often, each once, in order of first appearance.
pub open spec fn most_listed(pool: Seq<Seq<char>>) -> Seq<Seq<char>> {
    distinct_ids(pool).filter(most_listed_at(pool))
}

/// Non-decreasing in version order.
pub open spec fn sorted_versions(s: Seq<Seq<char>>) -> bool {
    forall|i: int, j: int| 0 <= i < j < s.len() ==> order_versions(#[trigger] s[i], #[trigger] s[j]) <= 0
}

/// Appends the versions the entries list for `package`.
fn push_entry_versions(pool: &mut Vec<String>, cs: &Vec<PackageCompat>, package: &str)
    ensures
        str_views(final(pool)@) == str_views(old(pool)@) + entry_versions(cs@, package@),
{
    let ghost p0 = str_views(pool@);
    let mut k: usize = 0;
    assert(cs@.take(0) =~= Seq::<PackageCompat>::empty());
    assert(p0 + entry_versions(cs@.take(0), package@) =~= p0);
    while k < cs.len()
        invariant
            k <= cs@.len(),
            p0 == str_views(old(pool)@),
            str_views(pool@) == p0 + entry_versions(cs@.take(k as int), package@),
        decreases cs.len() - k,
    {
        proof {
            assert(cs@.take(k + 1).drop_last() =~= cs@.take(k as int));
            assert(cs@.take(k + 1).last() == cs@[k as int]);
        }
        let c = &cs[k];
        let ghost before = str_views(pool@);
        if str_eq(c.name.as_str(), package) {
            let mut j: usize = 0;
            while j < c.versions.len()
                invariant
                    j <= c.versions@.len(),
                    str_views(pool@) == before + str_views(c.versions@).take(j as int),
                decreases c.versions.len() - j,
            {
                let ghost b = str_views(pool@);
                pool.push(string_from_str(c.versions[j].as_str()));
                assert(str_views(pool@) =~= b.push(c.versions@[j as int]@));
                assert(str_views(c.versions@).take(j + 1) =~= str_views(c.versions@).take(j as int).push(c.versions@[j as int]@));
                j += 1;
            }
            assert(str_views(c.versions@).take(c.versions@.len() as int) =~= str_views(c.versions@));
        } else {
            assert(before + Seq::<Seq<char>>::empty() =~= before);
        }
        k += 1;
    }
    assert(cs@.take(cs@.len() as int) =~= cs@);
}

/// Every version listed for `package` by the patches that take part.
fn collect_versions(patches: &[PatchMeta], package: &str, enabled: &[String]) -> (r: Vec<String>)
    ensures
        str_views(r@) == version_pool(patches@, package@, str_views(enabled@)),
{
    let mut en: Vec<String> = Vec::new();
    let mut q: usize = 0;
    while q < enabled.len()
        invariant
            q <= enabled@.len(),
            str_views(en@) == str_views(enabled@).take(q as int),
        decreases enabled.len() - q,
    {
        let ghost b = str_views(en@);
        en.push(string_from_str(enabled[q].as_str()));
        assert(str_views(en@) =~= b.push(enabled@[q as int]@));
        assert(str_views(enabled@).take(q + 1) =~= str_views(enabled@).take(q as int).push(enabled@[q as int]@));
        q += 1;
    }
    assert(str_views(enabled@).take(enabled@.len() as int) =~= str_views(enabled@));
    let ghost ev = str_views(enabled@);
    let mut pool: Vec<String> = Vec::new();
    let mut k: usize = 0;
    assert(patches@.take(0) =~= Seq::<PatchMeta>::empty());
    assert(str_views(pool@) =~= Seq::<Seq<char>>::empty());
    while k < patches.len()
        invariant
            k <= patches@.len(),
            ev == str_views(enabled@),
            str_views(en@) == ev,
            str_views(pool@) == version_pool(patches@.take(k as int), package@, ev),
        decreases patches.len() - k,
    {
        proof {
            assert(patches@.take(k + 1).drop_last() =~= patches@.take(k as int));
            assert(patches@.take(k + 1).last() == patches@[k as int]);
            lemma_any_ic_views(en@, patches@[k as int].name@);
        }
        let p = &patches[k];
        if en.len() == 0 || vec_contains_ignore_case(&en, p.name.as_str()) {
            push_entry_versions(&mut pool, &p.compatible_packages, package);
        } else {
            assert(str_views(pool@) + Seq::<Seq<char>>::empty() =~= str_views(pool@));
        }
        k += 1;
    }
    assert(patches@.take(patches@.len() as int) =~= patches@);
    pool
}

/// The distinct entries of `pool` with how often each occurs.
fn tally(pool: &Vec<String>) -> (r: (Vec<String>, Vec<usize>))
    ensures
        str_views(r.0@) == distinct_ids(str_views(pool@)),
        r.1@.len() == r.0@.len(),
        forall|i: int| 0 <= i < r.1@.len() ==> r.1@[i] == occurrences(str_views(pool@), #[trigger] r.0@[i]@),
{
    let ghost sv = str_views(pool@);
    let mut vs: Vec<String> = Vec::new();
    let mut cnt: Vec<usize> = Vec::new();
    let mut k: usize = 0;
    assert(sv.take(0) =~= Seq::<Seq<char>>::empty());
    assert(str_views(vs@) =~= Seq::<Seq<char>>::empty());
    while k < pool.len()
        invariant
            k <= pool@.len(),
            sv == str_views(pool@),
            str_views(vs@) == distinct_ids(sv.take(k as int)),
            cnt@.len() == vs@.len(),
            forall|i: int| 0 <= i < cnt@.len() ==> cnt@[i] == occurrences(sv.take(k as int), #[trigger] vs@[i]@),
            forall|i: int| 0 <= i < cnt@.len() ==> cnt@[i] <= k,
        decreases pool.len() - k,
    {
        let x = &pool[k];
        let ghost t0 = sv.take(k as int);
        let ghost t1 = sv.take(k + 1);
        proof {
            assert(t1.drop_last() =~= t0);
            assert(t1.last() == x@);
        }
        let found = position_of_str(&vs, x.as_str());
        let ghost c0 = cnt@;
        match found {
            Some(j) => {
                let c = cnt[j];
                cnt.set(j, c + 1);
                proof {
                    assert(str_views(vs@)[j as int] == x@);
                    assert(distinct_ids(t0).contains(x@));
                    assert forall|i: int| 0 <= i < cnt@.len() implies cnt@[i] == occurrences(t1, #[trigger] vs@[i]@) by {
                        assert(occurrences(t1, vs@[i]@) == occurrences(t0, vs@[i]@) + if x@ == vs@[i]@ { 1nat } else { 0nat });
                        if i != j {
                            lemma_distinct_no_dups(t0);
                            assert(str_views(vs@)[i] != str_views(vs@)[j as int]);
                        }
                    }
                }
            },
            None => {
                proof {
                    assert(!str_views(vs@).contains(x@)) by {
                        if str_views(vs@).contains(x@) {
                            let i = choose|i: int| 0 <= i < str_views(vs@).len() && str_views(vs@)[i] == x@;
                            assert(vs@[i]@ == x@);
                        }
                    }
                }
                let ghost b = str_views(vs@);
                vs.push(string_from_str(x.as_str()));
                cnt.push(1);
                proof {
                    assert(str_views(vs@) =~= b.push(x@));
                    lemma_distinct_contains(t0, x@);
                    lemma_occurrences_absent(t0, x@);
                    assert forall|i: int| 0 <= i < cnt@.len() implies cnt@[i] == occurrences(t1, #[trigger] vs@[i]@) by {
                        if i < c0.len() {
                            assert(vs@[i]@ != x@);
                        }
                    }
                }
            },
        }
        k += 1;
    }
    assert(sv.take(pool@.len() as int) =~= sv);
    (vs, cnt)
}

proof fn lemma_distinct_no_dups(s: Seq<Seq<char>>)
    ensures
        distinct_ids(s).no_duplicates(),
    decreases s.len(),
{
    if s.len() > 0 {
        lemma_distinct_no_dups(s.drop_last());
    }
}

proof fn lemma_occurrences_absent(s: Seq<Seq<char>>, x: Seq<char>)
    requires
        !s.contains(x),
    ensures
        occurrences(s, x) == 0,
    decreases s.len(),
{
    if s.len() > 0 {
        assert(!s.drop_last().contains(x)) by {
            if s.drop_last().contains(x) {
                let i = choose|i: int| 0 <= i < s.drop_last().len() && s.drop_last()[i] == x;
                assert(s[i] == x);
            }
        }
        assert(s[s.len() - 1] != x);
        lemma_occurrences_absent(s.drop_last(), x);
    }
}

/// The entries of `vs` whose count is the highest.
fn top_entries(vs: &Vec<String>, cnt: &Vec<usize>, Ghost(pool): Ghost<Seq<Seq<char>>>) -> (r: Vec<String>)
    requires
        str_views(vs@) == distinct_ids(pool),
        cnt@.len() == vs@.len(),
        forall|i: int| 0 <= i < cnt@.len() ==> cnt@[i] == occurrences(pool, #[trigger] vs@[i]@),
    ensures
        str_views(r@) == most_listed(pool),
{
    let mut m: usize = 0;
    let mut mi: usize = 0;
    let mut k: usize = 0;
    while k < cnt.len()
        invariant
            k <= cnt@.len(),
            forall|i: int| 0 <= i < k ==> cnt@[i] <= m,
            k > 0 ==> mi < k && cnt@[mi as int] == m,
        decreases cnt.len() - k,
    {
        if k == 0 || cnt[k] > m {
            m = cnt[k];
            mi = k;
        }
        k += 1;
    }
    let ghost pred = most_listed_at(pool);
    let ghost dv = str_views(vs@);
    proof {
        assert forall|i: int| 0 <= i < vs@.len() implies (cnt@[i] == m <==> pred(#[trigger] dv[i])) by {
            assert(dv[i] == vs@[i]@);
            lemma_distinct_contains(pool, dv[i]);
            assert(distinct_ids(pool).contains(dv[i]));
            if cnt@[i] == m {
                assert forall|y: Seq<char>| pool.contains(y) implies occurrences(pool, y) <= occurrences(pool, dv[i]) by {
                    lemma_distinct_contains(pool, y);
                    let j = choose|j: int| 0 <= j < distinct_ids(pool).len() && distinct_ids(pool)[j] == y;
                    assert(vs@[j]@ == y);
                    assert(cnt@[j] == occurrences(pool, vs@[j]@));
                }
            }
            if pred(dv[i]) {
                assert(dv[mi as int] == vs@[mi as int]@);
                lemma_distinct_contains(pool, dv[mi as int]);
                assert(distinct_ids(pool).contains(dv[mi as int]));
                assert(pool.contains(dv[mi as int]));
                assert(occurrences(pool, dv[mi as int]) <= occurrences(pool, dv[i]));
                assert(cnt@[mi as int] == occurrences(pool, vs@[mi as int]@));
            }
        }
    }
    let mut out: Vec<String> = Vec::new();
    let mut x: usize = 0;
    proof {
        reveal(Seq::filter);
        assert(dv.take(0) =~= Seq::<Seq<char>>::empty());
        assert(str_views(out@) =~= dv.take(0).filter(pred));
    }
    while x < vs.len()
        invariant
            x <= vs@.len(),
            cnt@.len() == vs@.len(),
            dv == str_views(vs@),
            pred == most_listed_at(pool),
            forall|i: int| 0 <= i < vs@.len() ==> (cnt@[i] == m <==> pred(#[trigger] dv[i])),
            str_views(out@) == dv.take(x as int).filter(pred),
        decreases vs.len() - x,
    {
        proof {
            assert(dv.take(x + 1) =~= dv.take(x as int).push(dv[x as int]));
            dv.take(x as int).lemma_filter_push(dv[x as int], pred);
            assert(cnt@[x as int] == m <==> pred(dv[x as int]));
        }
        if cnt[x] == m {
            let ghost b = str_views(out@);
            out.push(string_from_str(vs[x].as_str()));
            assert(str_views(out@) =~= b.push(dv[x as int]));
        }
        x += 1;
    }
    assert(dv.take(vs@.len() as int) =~= dv);
    out
}

/// The strings in non-decreasing version order; equal versions keep their order.
fn sort_by_version(items: Vec<String>) -> (r: Vec<String>)
    ensures
        str_views(r@).to_multiset() == str_views(items@).to_multiset(),
        sorted_versions(str_views(r@)),
{
    let mut out: Vec<String> = Vec::new();
    let mut parts: Vec<Vec<u64>> = Vec::new();
    let ghost iv = str_views(items@);
    let mut k: usize = 0;
    assert(iv.take(0) =~= Seq::<Seq<char>>::empty());
    assert(str_views(out@) =~= Seq::<Seq<char>>::empty());
    while k < items.len()
        invariant
            k <= items@.len(),
            iv == str_views(items@),
            parts@.len() == out@.len(),
            forall|i: int| 0 <= i < parts@.len() ==> (#[trigger] parts@[i])@ == crate::utils::version_order::version_numbers(out@[i]@),
            str_views(out@).to_multiset() == iv.take(k as int).to_multiset(),
            sorted_versions(str_views(out@)),
        decreases items.len() - k,
    {
        let x = &items[k];
        let xp = version_parts(x.as_str());
        let mut p: usize = 0;
        while p < out.len() && compare_sign(xp.as_slice(), parts[p].as_slice()) != -1
            invariant
                p <= out@.len(),
                parts@.len() == out@.len(),
                xp@ == crate::utils::version_order::version_numbers(x@),
                forall|i: int| 0 <= i < parts@.len() ==> (#[trigger] parts@[i])@ == crate::utils::version_order::version_numbers(out@[i]@),
                forall|i: int| 0 <= i < p ==> order_versions(x@, #[trigger] out@[i]@) != -1,
            decreases out.len() - p,
        {
            p += 1;
        }
        let ghost o0 = str_views(out@);
        proof {
            assert(iv.take(k + 1) =~= iv.take(k as int).push(x@));
            if p < out@.len() {
                assert(parts@[p as int]@ == crate::utils::version_order::version_numbers(out@[p as int]@));
                assert(order_versions(x@, o0[p as int]) == -1);
            }
            assert forall|i: int| 0 <= i < o0.len() implies (i < p ==> order_versions(#[trigger] o0[i], x@) <= 0) && (i >= p ==> order_versions(x@, o0[i]) < 0) by {
                let a = crate::utils::version_order::version_numbers(o0[i]);
                let b = crate::utils::version_order::version_numbers(x@);
                lemma_order_antisymmetric(a, b);
                if i < p {
                    assert(order_versions(x@, out@[i]@) != -1);
                } else {
                    let c = crate::utils::version_order::version_numbers(o0[p as int]);
                    assert(order_versions(o0[p as int], o0[i]) <= 0) by {
                        if i > p {
                            assert(sorted_versions(o0));
                        } else {
                            crate::utils::version_order::lemma_order_reflexive(c);
                        }
                    }
                    lemma_order_transitive(b, c, a);
                }
            }
        }
        out.insert(p, string_from_str(x.as_str()));
        parts.insert(p, xp);
        proof {
            let o1 = str_views(out@);
            assert(o1 =~= o0.insert(p as int, x@));
            vstd::seq_lib::to_multiset_insert(o0, p as int, x@);
            vstd::seq_lib::to_multiset_build(iv.take(k as int), x@);
            assert forall|i: int| 0 <= i < parts@.len() implies (#[trigger] parts@[i])@ == crate::utils::version_order::version_numbers(out@[i]@) by {

            }
            assert forall|i: int, j: int| 0 <= i < j < o1.len() implies order_versions(#[trigger] o1[i], #[trigger] o1[j]) <= 0 by {
                if j < p {
                    assert(o1[i] == o0[i] && o1[j] == o0[j]);
                } else if j == p {
                    assert(o1[i] == o0[i]);
                } else if i < p {
                    assert(o1[i] == o0[i] && o1[j] == o0[j - 1]);
                    let a = crate::utils::version_order::version_numbers(o0[i]);
                    let b = crate::utils::version_order::version_numbers(x@);
                    let c = crate::utils::version_order::version_numbers(o0[j - 1]);
                    lemma_order_transitive(a, b, c);
                } else if i == p {
                    assert(o1[j] == o0[j - 1]);
                } else {
                    assert(o1[i] == o0[i - 1] && o1[j] == o0[j - 1]);
                }
            }
        }
        k += 1;
    }
    assert(iv.take(items@.len() as int) =~= iv);
    out
}

/// The versions of `package` supported by the most patches, in version
/// order: only the patches named in `enabled_patches` count, or every patch
/// when that list is empty; each listing of a version counts once.
pub fn resolve_compatible_versions(patches: &[PatchMeta], package: &str, enabled_patches: &[String]) -> (r: Vec<String>)
    ensures
        str_views(r@).to_multiset() == most_listed(version_pool(patches@, package@, str_views(enabled_patches@))).to_multiset(),
        sorted_versions(str_views(r@)),
{
    let pool = collect_versions(patches, package, enabled_patches);
    let (vs, cnt) = tally(&pool);
    let top = top_entries(&vs, &cnt, Ghost(str_views(pool@)));
    sort_by_version(top)
}

// ---------------------------------------------------------------------
// Where the patch bundle of an app lies
// ---------------------------------------------------------------------

/// The repository of the app's patch source: the configured source's
/// repository, or the source name itself.
pub open spec fn mpp_repo(cfg: Config, app: AppConfig) -> Seq<char> {
    match cfg.patch_sources.spec_get(app.patch_source@) {
        Some(p) => p.repo@,
        None => app.patch_source@,
    }
}

/// The version or branch the app asks for, if any.
pub open spec fn mpp_target(app: AppConfig) -> Option<Seq<char>> {
    match opt_string_view(app.patches_version) {
        Some(t) => Some(t),
        None => opt_string_view(app.patch_branch),
    }
}

/// `repo` with every `/` replaced by `_`.
pub open spec fn safe_repo(repo: Seq<char>) -> Seq<char> {
    repo.map_values(|c: char| if c == '/' { '_' } else { c })
}

/// The bundle file for a version or branch.
pub open spec fn versioned_mpp(cfg: Config, app: AppConfig) -> Option<Seq<char>> {
    match mpp_target(app) {
        Some(t) => Some(cfg.build.tools_dir@ + "/patches_"@ + safe_repo(mpp_repo(cfg, app)) + "_"@ + t + ".mpp"@),
        None => None,
    }
}

/// The bundle file without a version.
pub open spec fn plain_mpp(cfg: Config, app: AppConfig) -> Seq<char> {
    cfg.build.tools_dir@ + "/patches_"@ + safe_repo(mpp_repo(cfg, app)) + ".mpp"@
}

/// The file names a bundle may have, the preferred one first.
pub fn mpp_candidates(cfg: &Config, app: &AppConfig) -> (r: (Option<String>, String))
    ensures
        opt_string_view(r.0) == versioned_mpp(*cfg, *app),
        r.1@ == plain_mpp(*cfg, *app),
{
    let repo = match cfg.patch_sources.get(app.patch_source.as_str()) {
        Some(p) => string_from_str(p.repo.as_str()),
        None => string_from_str(app.patch_source.as_str()),
    };
    let safe = replace_char(repo.as_str(), '/', '_');
    assert(safe@ =~= safe_repo(mpp_repo(*cfg, *app)));
    let target: Option<&String> = match &app.patches_version {
        Some(t) => Some(t),
        None => match &app.patch_branch {
            Some(b) => Some(b),
            None => None,
        },
    };
    let versioned = match target {
        Some(t) => {
            let mut v = string_from_str(cfg.build.tools_dir.as_str());
            push_str(&mut v, "/patches_");
            push_str(&mut v, safe.as_str());
            push_str(&mut v, "_");
            push_str(&mut v, t.as_str());
            push_str(&mut v, ".mpp");
            Some(v)
        },
        None => None,
    };
    let mut plain = string_from_str(cfg.build.tools_dir.as_str());
    push_str(&mut plain, "/patches_");
    push_str(&mut plain, safe.as_str());
    push_str(&mut plain, ".mpp");
    (versioned, plain)
}

/// The bundle file to use: the versioned one if it exists, else the plain
/// one if it exists. Which files exist is given by the caller.
pub fn resolve_mpp_path(cfg: &Config, app: &AppConfig, versioned_exists: bool, plain_exists: bool) -> (r: Option<String>)
    ensures
        opt_string_view(r) == (if versioned_mpp(*cfg, *app) is Some && versioned_exists {
            versioned_mpp(*cfg, *app)
        } else if plain_exists {
            Some(plain_mpp(*cfg, *app))
        } else {
            None
        }),
{
    let (versioned, plain) = mpp_candidates(cfg, app);
    if let Some(v) = versioned {
        if versioned_exists {
            return Some(v);
        }
    }
    if plain_exists {
        return Some(plain);
    }
    None
}

} // verus!
