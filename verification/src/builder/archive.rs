//! Choosing a file from an archive.org listing.

use vstd::prelude::*;
use crate::builder::{base_version, beta_or_alpha, filename_version, is_beta_or_alpha, extract_version_from_filename, opt_str};
use crate::pattern::{compile_pattern, pattern_group_ones, regex_compiles, regex_group_ones};
use crate::text::{
    chars_of, contains, ends_with, push_str, split, split_ranges, starts_with, str_contains,
    str_ends_with, str_eq, str_starts_with, str_views, string_from_str, string_of, pieces,
};
use crate::utils::version_order::{compare_sign, order_parts, version_numbers, version_parts};

verus! {

/// The directory URL with a trailing `/`.
pub fn archive_base(url: &str) -> (r: String)
    ensures
        r@ == if ends_with(url@, "/"@) {
            url@
        } else {
            url@ + "/"@
        },
{
    let mut s = string_from_str(url);
    if !str_ends_with(url, "/") {
        push_str(&mut s, "/");
    }
    s
}

/// A listed name that can be downloaded: not a path, query or temporary file.
pub open spec fn listing_ok(f: Seq<char>) -> bool {
    !contains(f, "/"@) && !starts_with(f, "?"@) && !contains(f, "~"@)
}

/// Selects the names that can be downloaded.
pub open spec fn listing_ok_p() -> spec_fn(Seq<char>) -> bool {
    |f: Seq<char>| listing_ok(f)
}

/// The pattern of file links in a directory listing.
pub open spec fn listing_pattern() -> Seq<char> {
    "href=\"([^\"]+\\.(?:apk|apkm|xapk))\""@
}

/// The APK, APKM and XAPK files that a directory listing links to, in order.
pub fn archive_candidates(html: &str) -> (r: Vec<String>)
    ensures
        regex_compiles(listing_pattern()) ==> str_views(r@) == regex_group_ones(listing_pattern(), html@).filter(
            listing_ok_p(),
        ),
        !regex_compiles(listing_pattern()) ==> r@.len() == 0,
{
    let pattern = "href=\"([^\"]+\\.(?:apk|apkm|xapk))\"";
    match compile_pattern(pattern) {
        Some(re) => {
            let found = pattern_group_ones(&re, html);
            let ghost fv = str_views(found@);
            let ghost pred = listing_ok_p();
            let mut out: Vec<String> = Vec::new();
            let mut i: usize = 0;
            proof {
                reveal(Seq::filter);
                assert(fv.take(0) =~= Seq::<Seq<char>>::empty());
                assert(str_views(out@) =~= fv.take(0).filter(pred));
            }
            while i < found.len()
                invariant
                    i <= found@.len(),
                    fv == str_views(found@),
                    pred == listing_ok_p(),
                    str_views(out@) == fv.take(i as int).filter(pred),
                decreases found.len() - i,
            {
                proof {
                    assert(fv.take(i + 1) =~= fv.take(i as int).push(fv[i as int]));
                    fv.take(i as int).lemma_filter_push(fv[i as int], pred);
                }
                let f = found[i].as_str();
                if !str_contains(f, "/") && !str_starts_with(f, "?") && !str_contains(f, "~") {
                    let ghost b = str_views(out@);
                    out.push(string_from_str(f));
                    assert(str_views(out@) =~= b.push(fv[i as int]));
                }
                i += 1;
            }
            assert(fv.take(found@.len() as int) =~= fv);
            out
        },
        None => Vec::new(),
    }
}

// ---------------------------------------------------------------------
// The choice
// ---------------------------------------------------------------------

/// A file for the target arch or for every arch.
pub open spec fn arch_like(f: Seq<char>, arch: Seq<char>) -> bool {
    contains(f, arch) || contains(f, "-all."@) || contains(f, "_all."@) || contains(f, "universal"@)
}

/// A file named for version `v` or its part before `-`.
pub open spec fn version_like(f: Seq<char>, v: Seq<char>) -> bool {
    contains(f, v) || contains(f, base_version(v))
}

/// The last index whose flag is set.
pub open spec fn last_flag(fs: Seq<bool>) -> Option<int>
    decreases fs.len(),
{
    if fs.len() == 0 {
        None
    } else if fs.last() {
        Some(fs.len() - 1)
    } else {
        last_flag(fs.drop_last())
    }
}

/// The tests that files are chosen by: 0, for version `a` and suiting arch
/// `b`; 1, for version `a`; 2, suiting arch `b`; 3, naming arch `b`; 4, a
/// build for all arches; 5, a universal build.
pub open spec fn kind_pred(k: u8, a: Seq<char>, b: Seq<char>) -> spec_fn(Seq<char>) -> bool {
    |f: Seq<char>| if k == 0 {
        version_like(f, a) && arch_like(f, b)
    } else if k == 1 {
        version_like(f, a)
    } else if k == 2 {
        arch_like(f, b)
    } else if k == 3 {
        contains(f, b)
    } else if k == 4 {
        contains(f, "-all."@) || contains(f, "_all."@)
    } else {
        contains(f, "universal"@)
    }
}

/// The last file that passes test `k`.
pub open spec fn last_of(cs: Seq<Seq<char>>, k: u8, a: Seq<char>, b: Seq<char>) -> Option<int> {
    last_flag(cs.map_values(kind_pred(k, a, b)))
}

/// The last file for version `v` that suits the arch, else the last file
/// for `v`.
pub open spec fn pick_version(cs: Seq<Seq<char>>, v: Seq<char>, arch: Seq<char>) -> Option<int> {
    match last_of(cs, 0, v, arch) {
        Some(i) => Some(i),
        None => last_of(cs, 1, v, arch),
    }
}

/// The newest supported version other than the target (the list is taken
/// from its end) that some file is named for, and that file.
pub open spec fn supported_pick(cs: Seq<Seq<char>>, sup: Seq<Seq<char>>, ver: Seq<char>, arch: Seq<char>) -> Option<int>
    decreases sup.len(),
{
    if sup.len() == 0 {
        None
    } else if sup.last() != ver && pick_version(cs, sup.last(), arch) is Some {
        pick_version(cs, sup.last(), arch)
    } else {
        supported_pick(cs, sup.drop_last(), ver, arch)
    }
}

/// One step of the search for the newest file not newer than the target:
/// the best index so far and its version components.
pub open spec fn older_step(best: (Option<int>, Seq<u64>), i: int, f: Seq<char>, target: Seq<u64>, arch: Seq<char>) -> (Option<int>, Seq<u64>) {
    let fv = filename_version(f);
    if fv.len() == 0 {
        best
    } else {
        let fp = version_numbers(fv);
        if order_parts(fp, target) == 1 {
            best
        } else if order_parts(fp, best.1) == 1 || best.0 is None {
            (Some(i), fp)
        } else if order_parts(fp, best.1) == 0 && (contains(f, arch) || contains(f, "-all."@) || contains(f, "_all."@)) {
            (Some(i), best.1)
        } else {
            best
        }
    }
}

pub open spec fn older_best(cs: Seq<Seq<char>>, target: Seq<u64>, arch: Seq<char>) -> (Option<int>, Seq<u64>)
    decreases cs.len(),
{
    if cs.len() == 0 {
        (None, seq![])
    } else {
        older_step(older_best(cs.drop_last(), target, arch), cs.len() - 1, cs.last(), target, arch)
    }
}

/// Why no archive.org file was chosen.
#[derive(Debug, Clone)]
pub enum ArchiveError {
    NoCandidates { base: String },
    OnlyBetas { base: String },
    NoOlderVersion { version: String },
}

impl ArchiveError {
    /// The error text.
    pub fn message(&self) -> (r: String)
        ensures
            r@ == match *self {
                ArchiveError::NoCandidates { base } => "No APK/APKM found in archive.org directory "@ + base@,
                ArchiveError::OnlyBetas { base } => "No non-beta APK/APKM found in archive.org directory "@ + base@,
                ArchiveError::NoOlderVersion { version } => "archive.org: version "@ + version@
                    + " not found and no older version available"@,
            },
    {
        match self {
            ArchiveError::NoCandidates { base } => {
                let mut s = string_from_str("No APK/APKM found in archive.org directory ");
                push_str(&mut s, base.as_str());
                s
            },
            ArchiveError::OnlyBetas { base } => {
                let mut s = string_from_str("No non-beta APK/APKM found in archive.org directory ");
                push_str(&mut s, base.as_str());
                s
            },
            ArchiveError::NoOlderVersion { version } => {
                let mut s = string_from_str("archive.org: version ");
                push_str(&mut s, version.as_str());
                push_str(&mut s, " not found and no older version available");
                s
            },
        }
    }
}

/// Files that may be taken when betas are or are not allowed.
pub open spec fn keep_file(allow_beta: bool) -> spec_fn(Seq<char>) -> bool {
    |f: Seq<char>| allow_beta || !beta_or_alpha(f)
}

/// The files that may be taken: betas and alphas only when the target is one.
pub open spec fn clean_candidates(cands: Seq<Seq<char>>, target: Option<Seq<char>>) -> Seq<Seq<char>> {
    cands.filter(keep_file(target is Some && beta_or_alpha(target->0)))
}

/// The file chosen from non-empty clean candidates.
pub open spec fn chosen_index(cs: Seq<Seq<char>>, target: Option<Seq<char>>, sup: Seq<Seq<char>>, arch: Seq<char>) -> Option<int> {
    match target {
        Some(ver) => match pick_version(cs, ver, arch) {
            Some(i) => Some(i),
            None => match supported_pick(cs, sup, ver, arch) {
                Some(i) => Some(i),
                None => if sup.len() == 0 {
                    older_best(cs, version_numbers(ver), arch).0
                } else {
                    match last_of(cs, 2, ver, arch) {
                        Some(i) => Some(i),
                        None => Some(cs.len() - 1),
                    }
                },
            },
        },
        None => match last_of(cs, 3, seq![], arch) {
            Some(i) => Some(i),
            None => match last_of(cs, 4, seq![], arch) {
                Some(i) => Some(i),
                None => match last_of(cs, 5, seq![], arch) {
                    Some(i) => Some(i),
                    None => Some(cs.len() - 1),
                },
            },
        },
    }
}

// ---------------------------------------------------------------------
// Executable choice
// ---------------------------------------------------------------------

/// Whether `f` passes test `k`.
fn passes(f: &str, k: u8, a: &str, a_base: &str, b: &str) -> (r: bool)
    requires
        a_base@ == base_version(a@),
    ensures
        r == kind_pred(k, a@, b@)(f@),
{
    if k == 0 {
        (str_contains(f, a) || str_contains(f, a_base)) && (str_contains(f, b) || str_contains(f, "-all.")
            || str_contains(f, "_all.") || str_contains(f, "universal"))
    } else if k == 1 {
        str_contains(f, a) || str_contains(f, a_base)
    } else if k == 2 {
        str_contains(f, b) || str_contains(f, "-all.") || str_contains(f, "_all.") || str_contains(f, "universal")
    } else if k == 3 {
        str_contains(f, b)
    } else if k == 4 {
        str_contains(f, "-all.") || str_contains(f, "_all.")
    } else {
        str_contains(f, "universal")
    }
}

/// The last file that passes test `k`.
fn last_passing(cs: &Vec<String>, k: u8, a: &str, b: &str) -> (r: Option<usize>)
    ensures
        match r {
            Some(i) => last_of(str_views(cs@), k, a@, b@) == Some(i as int) && i < cs@.len(),
            None => last_of(str_views(cs@), k, a@, b@) is None,
        },
{
    let a_base = crate::builder::base_of(a);
    let ghost fs = str_views(cs@).map_values(kind_pred(k, a@, b@));
    let mut i = cs.len();
    assert(fs.take(i as int) =~= fs);
    while i > 0
        invariant
            i <= cs@.len(),
            a_base@ == base_version(a@),
            fs == str_views(cs@).map_values(kind_pred(k, a@, b@)),
            last_flag(fs) == last_flag(fs.take(i as int)),
        decreases i,
    {
        proof {
            assert(fs.take(i as int).drop_last() =~= fs.take(i - 1));
            assert(fs.take(i as int).last() == fs[i - 1]);
            assert(str_views(cs@)[i - 1] == cs@[i - 1]@);
        }
        if passes(cs[i - 1].as_str(), k, a, a_base.as_str(), b) {
            return Some(i - 1);
        }
        i -= 1;
    }
    assert(fs.take(0) =~= Seq::<bool>::empty());
    None
}

/// The last file for version `v`, preferring one that suits the arch.
fn pick_version_exec(cs: &Vec<String>, v: &str, arch: &str) -> (r: Option<usize>)
    ensures
        match r {
            Some(i) => pick_version(str_views(cs@), v@, arch@) == Some(i as int) && i < cs@.len(),
            None => pick_version(str_views(cs@), v@, arch@) is None,
        },
{
    match last_passing(cs, 0, v, arch) {
        Some(i) => Some(i),
        None => last_passing(cs, 1, v, arch),
    }
}

/// The file for the newest supported version other than `ver`.
fn supported_pick_exec(cs: &Vec<String>, sup: &Vec<String>, ver: &str, arch: &str) -> (r: Option<usize>)
    ensures
        match r {
            Some(i) => supported_pick(str_views(cs@), str_views(sup@), ver@, arch@) == Some(i as int) && i < cs@.len(),
            None => supported_pick(str_views(cs@), str_views(sup@), ver@, arch@) is None,
        },
{
    let ghost sv = str_views(sup@);
    let mut j = sup.len();
    assert(sv.take(j as int) =~= sv);
    while j > 0
        invariant
            j <= sup@.len(),
            sv == str_views(sup@),
            supported_pick(str_views(cs@), sv, ver@, arch@) == supported_pick(str_views(cs@), sv.take(j as int), ver@, arch@),
        decreases j,
    {
        proof {
            assert(sv.take(j as int).drop_last() =~= sv.take(j - 1));
            assert(sv.take(j as int).last() == sup@[j - 1]@);
        }
        let s = sup[j - 1].as_str();
        if !str_eq(s, ver) {
            if let Some(i) = pick_version_exec(cs, s, arch) {
                return Some(i);
            }
        }
        j -= 1;
    }
    assert(sv.take(0) =~= Seq::<Seq<char>>::empty());
    None
}

/// The newest file not newer than the target version.
fn older_best_exec(cs: &Vec<String>, ver: &str, arch: &str) -> (r: Option<usize>)
    ensures
        match r {
            Some(i) => older_best(str_views(cs@), version_numbers(ver@), arch@).0 == Some(i as int) && i < cs@.len(),
            None => older_best(str_views(cs@), version_numbers(ver@), arch@).0 is None,
        },
{
    let ghost sv = str_views(cs@);
    let target = version_parts(ver);
    let mut best: Option<usize> = None;
    let mut best_parts: Vec<u64> = Vec::new();
    let mut i: usize = 0;
    assert(sv.take(0) =~= Seq::<Seq<char>>::empty());
    while i < cs.len()
        invariant
            i <= cs@.len(),
            sv == str_views(cs@),
            target@ == version_numbers(ver@),
            older_best(sv.take(i as int), target@, arch@) == (
                match best {
                    Some(b) => Some(b as int),
                    None => None,
                },
                best_parts@,
            ),
            best matches Some(b) ==> b < i,
        decreases cs.len() - i,
    {
        proof {
            assert(sv.take(i + 1).drop_last() =~= sv.take(i as int));
            assert(sv.take(i + 1).last() == cs@[i as int]@);
        }
        let f = cs[i].as_str();
        let fv = extract_version_from_filename(f);
        if fv.as_str().unicode_len() > 0 {
            let fp = version_parts(fv.as_str());
            if compare_sign(fp.as_slice(), target.as_slice()) != 1 {
                let c = compare_sign(fp.as_slice(), best_parts.as_slice());
                if c == 1 || best.is_none() {
                    best = Some(i);
                    best_parts = fp;
                } else if c == 0 && (str_contains(f, arch) || str_contains(f, "-all.") || str_contains(f, "_all.")) {
                    best = Some(i);
                }
            }
        }
        i += 1;
    }
    assert(sv.take(cs@.len() as int) =~= sv);
    best
}

/// Chooses the file to download from an archive.org listing: for a target
/// version, the last file named for it (preferring the arch), else for the
/// newest other supported version, else (with no supported versions) the
/// newest file not newer than the target, else the last file for the arch
/// or simply the last; without a target, the last file for the arch, for
/// all arches, universal, or the last. Betas and alphas are only taken for
/// a beta or alpha target.
pub fn choose_archive_file(
    cands: &Vec<String>,
    base: &str,
    arch: &str,
    target: Option<&str>,
    supported: &Vec<String>,
) -> (r: Result<String, ArchiveError>)
    ensures
        cands@.len() == 0 ==> (r matches Err(ArchiveError::NoCandidates { base: b }) && b@ == base@),
        cands@.len() > 0 && clean_candidates(str_views(cands@), opt_str(target)).len() == 0 ==> (r matches Err(
            ArchiveError::OnlyBetas { base: b },
        ) && b@ == base@),
        cands@.len() > 0 && clean_candidates(str_views(cands@), opt_str(target)).len() > 0 ==> {
            let cs = clean_candidates(str_views(cands@), opt_str(target));
            match chosen_index(cs, opt_str(target), str_views(supported@), arch@) {
                Some(i) => (r matches Ok(f) && 0 <= i < cs.len() && f@ == cs[i]),
                None => (target matches Some(t) && (r matches Err(ArchiveError::NoOlderVersion { version: v }) && v@ == t@)),
            }
        },
{
    if cands.len() == 0 {
        return Err(ArchiveError::NoCandidates { base: string_from_str(base) });
    }
    let allow_beta = match target {
        Some(t) => is_beta_or_alpha(t),
        None => false,
    };
    let ghost pred = keep_file(allow_beta);
    let ghost sv = str_views(cands@);
    let mut cs: Vec<String> = Vec::new();
    let mut i: usize = 0;
    proof {
        reveal(Seq::filter);
        assert(sv.take(0) =~= Seq::<Seq<char>>::empty());
        assert(str_views(cs@) =~= sv.take(0).filter(pred));
    }
    while i < cands.len()
        invariant
            i <= cands@.len(),
            sv == str_views(cands@),
            pred == keep_file(allow_beta),
            str_views(cs@) == sv.take(i as int).filter(pred),
        decreases cands.len() - i,
    {
        proof {
            assert(sv.take(i + 1) =~= sv.take(i as int).push(sv[i as int]));
            sv.take(i as int).lemma_filter_push(sv[i as int], pred);
        }
        let f = cands[i].as_str();
        if allow_beta || !is_beta_or_alpha(f) {
            let ghost b = str_views(cs@);
            cs.push(string_from_str(f));
            assert(str_views(cs@) =~= b.push(sv[i as int]));
        }
        i += 1;
    }
    assert(sv.take(cands@.len() as int) =~= sv);
    assert(str_views(cs@) == clean_candidates(sv, opt_str(target)));
    if cs.len() == 0 {
        return Err(ArchiveError::OnlyBetas { base: string_from_str(base) });
    }
    let ghost cv = str_views(cs@);
    let chosen: Option<usize> = match target {
        Some(ver) => match pick_version_exec(&cs, ver, arch) {
            Some(i) => Some(i),
            None => match supported_pick_exec(&cs, supported, ver, arch) {
                Some(i) => Some(i),
                None => {
                    if supported.len() == 0 {
                        older_best_exec(&cs, ver, arch)
                    } else {
                        match last_passing(&cs, 2, ver, arch) {
                            Some(i) => Some(i),
                            None => Some(cs.len() - 1),
                        }
                    }
                },
            },
        },
        None => match last_passing(&cs, 3, "", arch) {
            Some(i) => Some(i),
            None => match last_passing(&cs, 4, "", arch) {
                Some(i) => Some(i),
                None => match last_passing(&cs, 5, "", arch) {
                    Some(i) => Some(i),
                    None => Some(cs.len() - 1),
                },
            },
        },
    };
    proof {
        reveal_strlit("");
        assert(""@ =~= Seq::<char>::empty());
    }
    match chosen {
        Some(i) => {
            assert(cv[i as int] == cs@[i as int]@);
            Ok(string_from_str(cs[i].as_str()))
        },
        None => {
            let v = match target {
                Some(t) => string_from_str(t),
                None => String::new(),
            };
            Err(ArchiveError::NoOlderVersion { version: v })
        },
    }
}

} // verus!
