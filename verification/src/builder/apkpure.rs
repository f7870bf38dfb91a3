//! Addresses and ordering used to download from APKPure.

use vstd::prelude::*;
use crate::pattern::{compile_pattern, pattern_group_ones, regex_compiles, regex_group_ones};
use crate::text::{
    chars_of, contains, ends_with, pieces, push_str, replace_all, replace_char, replace_str,
    split, split_ranges, starts_with, str_contains, str_ends_with, str_starts_with, str_views,
    string_from_str, string_of, vec_contains_str,
};

verus! {

/// The page of a package on APKPure, or the given page, and the package
/// name: the last non-empty `/`-separated part of a URL.
pub open spec fn apkpure_target(package_or_url: Seq<char>) -> (Seq<char>, Seq<char>) {
    if starts_with(package_or_url, "http"@) {
        (package_or_url, last_nonempty(split(package_or_url, seq!['/'], false), package_or_url))
    } else {
        ("https://apkpure.com/app/"@ + package_or_url, package_or_url)
    }
}

/// The last non-empty part, or `dflt` when every part is empty.
pub open spec fn last_nonempty(parts: Seq<Seq<char>>, dflt: Seq<char>) -> Seq<char>
    decreases parts.len(),
{
    if parts.len() == 0 {
        dflt
    } else if parts.last().len() > 0 {
        parts.last()
    } else {
        last_nonempty(parts.drop_last(), dflt)
    }
}

/// The app page to open and the package name.
pub fn apkpure_app_target(package_or_url: &str) -> (r: (String, String))
    ensures
        (r.0@, r.1@) == apkpure_target(package_or_url@),
{
    if str_starts_with(package_or_url, "http") {
        let v = chars_of(package_or_url);
        let slash: [char; 1] = ['/'];
        assert(slash@ =~= seq!['/']);
        let rs = split_ranges(v.as_slice(), 0, v.len(), slash.as_slice(), false);
        assert(v@.subrange(0, v@.len() as int) =~= v@);
        let ghost parts = pieces(v@, rs@);
        let mut k = rs.len();
        assert(parts.take(k as int) =~= parts);
        while k > 0
            invariant
                k <= rs@.len(),
                parts == pieces(v@, rs@),
                parts == split(package_or_url@, seq!['/'], false),
                crate::text::ranges_within(rs@, 0, v@.len() as int),
                v@ == package_or_url@,
                starts_with(package_or_url@, "http"@),
                forall|j: int| k <= j < rs@.len() ==> (#[trigger] parts[j]).len() == 0,
                last_nonempty(parts, package_or_url@) == last_nonempty(parts.take(k as int), package_or_url@),
            decreases k,
        {
            let (a, b) = rs[k - 1];
            proof {
                assert(0 <= rs@[k - 1].0 <= rs@[k - 1].1 <= v@.len());
                assert(parts[k - 1] == v@.subrange(a as int, b as int));
                assert(parts.take(k as int).drop_last() =~= parts.take(k - 1));
                assert(parts.take(k as int).last() == parts[k - 1]);
            }
            if a < b {
                return (string_from_str(package_or_url), string_of(v.as_slice(), a, b));
            }
            k -= 1;
        }
        assert(parts.take(0) =~= Seq::<Seq<char>>::empty());
        (string_from_str(package_or_url), string_from_str(package_or_url))
    } else {
        let mut url = string_from_str("https://apkpure.com/app/");
        push_str(&mut url, package_or_url);
        (url, string_from_str(package_or_url))
    }
}

/// The download pages to inspect: with a canonical app page, the page for
/// the target version (spaces as `-`) if one is wanted, then the generic one.
pub open spec fn download_pages(canonical: Option<Seq<char>>, target: Option<Seq<char>>) -> Seq<Seq<char>> {
    match canonical {
        Some(c) => match target {
            Some(v) => seq![
                c + "/download/"@ + v.map_values(|x: char| if x == ' ' { '-' } else { x }),
                c + "/download"@,
            ],
            None => seq![c + "/download"@],
        },
        None => seq![],
    }
}

/// The download pages to inspect, in order.
pub fn apkpure_download_pages(canonical: Option<&str>, target: Option<&str>) -> (r: Vec<String>)
    ensures
        str_views(r@) == download_pages(crate::builder::opt_str(canonical), crate::builder::opt_str(target)),
{
    let mut pages: Vec<String> = Vec::new();
    if let Some(c) = canonical {
        if let Some(v) = target {
            let clean = replace_char(v, ' ', '-');
            let mut p = string_from_str(c);
            push_str(&mut p, "/download/");
            push_str(&mut p, clean.as_str());
            pages.push(p);
        }
        let mut p = string_from_str(c);
        push_str(&mut p, "/download");
        pages.push(p);
    }
    assert(str_views(pages@) =~= download_pages(crate::builder::opt_str(canonical), crate::builder::opt_str(target)));
    pages
}

/// The direct download addresses to try when no page lists any: for the
/// target version (spaces as `+`) on both hosts, as XAPK then APK, then the
/// latest version likewise.
pub open spec fn constructed_endpoints(pkg: Seq<char>, target: Option<Seq<char>>) -> Seq<Seq<char>> {
    let latest = seq![
        "https://d.apkpure.com/b/XAPK/"@ + pkg + "?version=latest"@,
        "https://d.apkpure.com/b/APK/"@ + pkg + "?version=latest"@,
        "https://d.apkpure.net/b/XAPK/"@ + pkg + "?version=latest"@,
        "https://d.apkpure.net/b/APK/"@ + pkg + "?version=latest"@,
    ];
    match target {
        Some(v) => {
            let ve = v.map_values(|x: char| if x == ' ' { '+' } else { x });
            seq![
                "https://d.apkpure.com/b/XAPK/"@ + pkg + "?versionName="@ + ve,
                "https://d.apkpure.com/b/APK/"@ + pkg + "?versionName="@ + ve,
                "https://d.apkpure.net/b/XAPK/"@ + pkg + "?versionName="@ + ve,
                "https://d.apkpure.net/b/APK/"@ + pkg + "?versionName="@ + ve,
            ] + latest
        },
        None => latest,
    }
}

fn endpoint(prefix: &str, pkg: &str, query: &str, value: &str) -> (r: String)
    ensures
        r@ == prefix@ + pkg@ + query@ + value@,
{
    let mut s = string_from_str(prefix);
    push_str(&mut s, pkg);
    push_str(&mut s, query);
    push_str(&mut s, value);
    s
}

/// The direct download addresses for `pkg`, versioned ones first.
pub fn apkpure_endpoints(pkg: &str, target: Option<&str>) -> (r: Vec<String>)
    ensures
        str_views(r@) == constructed_endpoints(pkg@, crate::builder::opt_str(target)),
{
    let mut out: Vec<String> = Vec::new();
    if let Some(v) = target {
        let ve = replace_char(v, ' ', '+');
        out.push(endpoint("https://d.apkpure.com/b/XAPK/", pkg, "?versionName=", ve.as_str()));
        out.push(endpoint("https://d.apkpure.com/b/APK/", pkg, "?versionName=", ve.as_str()));
        out.push(endpoint("https://d.apkpure.net/b/XAPK/", pkg, "?versionName=", ve.as_str()));
        out.push(endpoint("https://d.apkpure.net/b/APK/", pkg, "?versionName=", ve.as_str()));
    }
    out.push(endpoint("https://d.apkpure.com/b/XAPK/", pkg, "?version=latest", ""));
    out.push(endpoint("https://d.apkpure.com/b/APK/", pkg, "?version=latest", ""));
    out.push(endpoint("https://d.apkpure.net/b/XAPK/", pkg, "?version=latest", ""));
    out.push(endpoint("https://d.apkpure.net/b/APK/", pkg, "?version=latest", ""));
    proof {
        reveal_strlit("");
    }
    assert(str_views(out@) =~= constructed_endpoints(pkg@, crate::builder::opt_str(target)));
    out
}

/// The Referer values tried for a download, in order: the last page seen,
/// each site's home page, and none.
pub fn apkpure_referers(last_page: &str) -> (r: Vec<Option<String>>)
    ensures
        r@.len() == 4,
        r@[0] matches Some(s) && s@ == last_page@,
        r@[1] matches Some(s) && s@ == "https://apkpure.com/"@,
        r@[2] matches Some(s) && s@ == "https://apkpure.net/"@,
        r@[3] is None,
{
    let mut v: Vec<Option<String>> = Vec::new();
    v.push(Some(string_from_str(last_page)));
    v.push(Some(string_from_str("https://apkpure.com/")));
    v.push(Some(string_from_str("https://apkpure.net/")));
    v.push(None);
    v
}

/// How early a link is tried: the target arch first, then universal builds,
/// then the rest.
pub open spec fn link_rank(link: Seq<char>, arch: Seq<char>) -> int {
    if contains(link, arch) {
        0
    } else if contains(link, "universal"@) || contains(link, "all"@) {
        1
    } else {
        2
    }
}

/// Selects the links of one rank.
pub open spec fn has_rank(arch: Seq<char>, k: int) -> spec_fn(Seq<char>) -> bool {
    |l: Seq<char>| link_rank(l, arch) == k
}

/// The links ordered by rank, keeping their order within a rank (a stable sort).
pub open spec fn ranked_links(links: Seq<Seq<char>>, arch: Seq<char>) -> Seq<Seq<char>> {
    links.filter(has_rank(arch, 0)) + links.filter(has_rank(arch, 1)) + links.filter(has_rank(arch, 2))
}

fn rank_of(link: &str, arch: &str) -> (r: u8)
    ensures
        r as int == link_rank(link@, arch@),
{
    if str_contains(link, arch) {
        0
    } else if str_contains(link, "universal") || str_contains(link, "all") {
        1
    } else {
        2
    }
}

fn links_of_rank(links: &Vec<String>, arch: &str, k: u8, out: &mut Vec<String>)
    ensures
        str_views(final(out)@) == str_views(old(out)@) + str_views(links@).filter(has_rank(arch@, k as int)),
{
    let ghost pred = has_rank(arch@, k as int);
    let ghost sv = str_views(links@);
    let ghost o0 = str_views(out@);
    let mut i: usize = 0;
    proof {
        reveal(Seq::filter);
        assert(sv.take(0) =~= Seq::<Seq<char>>::empty());
        assert(o0 + sv.take(0).filter(pred) =~= o0);
    }
    while i < links.len()
        invariant
            i <= links@.len(),
            sv == str_views(links@),
            pred == has_rank(arch@, k as int),
            o0 == str_views(old(out)@),
            str_views(out@) == o0 + sv.take(i as int).filter(pred),
        decreases links.len() - i,
    {
        proof {
            assert(sv.take(i + 1) =~= sv.take(i as int).push(sv[i as int]));
            sv.take(i as int).lemma_filter_push(sv[i as int], pred);
            assert(sv[i as int] == links@[i as int]@);
        }
        if rank_of(links[i].as_str(), arch) == k {
            let ghost b = str_views(out@);
            out.push(string_from_str(links[i].as_str()));
            assert(str_views(out@) =~= b.push(sv[i as int]));
            assert(o0 + sv.take(i as int).filter(pred).push(sv[i as int]) =~= (o0 + sv.take(i as int).filter(pred)).push(sv[i as int]));
        }
        i += 1;
    }
    assert(sv.take(links@.len() as int) =~= sv);
}

/// The links in the order they are tried: those for the target arch, then
/// universal ones, then the rest, each group in its original order.
pub fn sort_links_by_arch(links: &Vec<String>, arch: &str) -> (r: Vec<String>)
    ensures
        str_views(r@) == ranked_links(str_views(links@), arch@),
{
    let mut out: Vec<String> = Vec::new();
    assert(str_views(out@) =~= Seq::<Seq<char>>::empty());
    links_of_rank(links, arch, 0, &mut out);
    links_of_rank(links, arch, 1, &mut out);
    links_of_rank(links, arch, 2, &mut out);
    assert(Seq::<Seq<char>>::empty() + str_views(links@).filter(has_rank(arch@, 0)) =~= str_views(links@).filter(has_rank(arch@, 0)));
    out
}

/// The pattern of direct download links on an APKPure page.
pub open spec fn link_pattern() -> Seq<char> {
    "href=[\\x22\\x27](https://d\\.apkpure\\.(?:com|net)/b/(?:XAPK|APK)/[^\\x22\\x27]+)[\\x22\\x27]"@
}

/// The links in order of first appearance, each once, with `&amp;` decoded.
pub open spec fn distinct_links(found: Seq<Seq<char>>) -> Seq<Seq<char>> {
    crate::text::distinct_ids(found.map_values(|l: Seq<char>| replace_all(l, "&amp;"@, "&"@)))
}

/// The direct download links on an APKPure page, each once, in order.
pub fn extract_download_links(html: &str) -> (r: Vec<String>)
    ensures
        regex_compiles(link_pattern()) ==> str_views(r@) == distinct_links(regex_group_ones(link_pattern(), html@)),
        !regex_compiles(link_pattern()) ==> r@.len() == 0,
{
    let pattern = "href=[\\x22\\x27](https://d\\.apkpure\\.(?:com|net)/b/(?:XAPK|APK)/[^\\x22\\x27]+)[\\x22\\x27]";
    match compile_pattern(pattern) {
        Some(re) => {
            let found = pattern_group_ones(&re, html);
            let ghost fv = str_views(found@);
            let ghost mapped = fv.map_values(|l: Seq<char>| replace_all(l, "&amp;"@, "&"@));
            let mut decoded: Vec<String> = Vec::new();
            let mut i: usize = 0;
            proof {
                reveal_strlit("&amp;");
            }
            while i < found.len()
                invariant
                    i <= found@.len(),
                    fv == str_views(found@),
                    mapped == fv.map_values(|l: Seq<char>| replace_all(l, "&amp;"@, "&"@)),
                    "&amp;"@.len() > 0,
                    str_views(decoded@) == mapped.take(i as int),
                decreases found.len() - i,
            {
                let d = replace_str(found[i].as_str(), "&amp;", "&");
                let ghost b = str_views(decoded@);
                decoded.push(d);
                assert(str_views(decoded@) =~= b.push(mapped[i as int]));
                assert(mapped.take(i + 1) =~= mapped.take(i as int).push(mapped[i as int]));
                i += 1;
            }
            assert(mapped.take(found@.len() as int) =~= mapped);
            let mut out: Vec<String> = Vec::new();
            assert(str_views(out@) =~= Seq::<Seq<char>>::empty());
            proof {
                crate::text::lemma_distinct_from_empty(mapped);
            }
            crate::text::push_distinct(&mut out, &decoded);
            out
        },
        None => Vec::new(),
    }
}

/// Whether an `apkpure_url` is itself a direct APK or XAPK address.
pub fn is_direct_apk_url(base_url: &str) -> (r: bool)
    ensures
        r == (starts_with(base_url@, "http"@) && (ends_with(base_url@, ".apk"@) || ends_with(base_url@, ".xapk"@))),
{
    str_starts_with(base_url, "http") && (str_ends_with(base_url, ".apk") || str_ends_with(base_url, ".xapk"))
}

/// What follows one download attempt from APKPure.
#[derive(Debug, Clone, Copy, PartialEq, Eq, Structural)]
pub enum AttemptNext {
    /// The APK arrived: the download is done.
    Accept,
    /// A file arrived but is too small to be the APK: try the next referer.
    TooSmall,
    /// Refused with 403: remember the link and try the next referer.
    Forbidden,
    /// Any other failure: give up on this link.
    Failed,
}

/// The verdict on one attempt: the error text of a failed download (`None`
/// when it succeeded) and the size of the file it left. A file above one
/// megabyte is the APK; an error that mentions `403` is a refusal.
pub fn apkpure_attempt_next(error: Option<&str>, size: u64) -> (r: AttemptNext)
    ensures
        r == match error {
            None => if size > 1_000_000 {
                AttemptNext::Accept
            } else {
                AttemptNext::TooSmall
            },
            Some(e) => if contains(e@, "403"@) {
                AttemptNext::Forbidden
            } else {
                AttemptNext::Failed
            },
        },
{
    match error {
        None => if size > 1_000_000 {
            AttemptNext::Accept
        } else {
            AttemptNext::TooSmall
        },
        Some(e) => if str_contains(e, "403") {
            AttemptNext::Forbidden
        } else {
            AttemptNext::Failed
        },
    }
}

} // verus!
