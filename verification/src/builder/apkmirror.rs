//! The choices along APKMirror's pages: release, variant and download links.

use vstd::prelude::*;
use crate::builder::{base_of, base_version, beta_or_alpha, is_beta_or_alpha, opt_str};
use crate::pattern::{compile_pattern, pattern_group_ones, regex_compiles, regex_group_ones};
use crate::text::{
    contains, first_where, lemma_first_where, push_str, replace_char, str_contains, str_views,
    string_from_str,
};

verus! {

/// The links of an APKMirror page that a pattern's first group captures,
/// in page order; `None` when the pattern does not compile.
pub fn page_links(pattern: &str, html: &str) -> (r: Option<Vec<String>>)
    ensures
        regex_compiles(pattern@) <==> r is Some,
        r matches Some(v) ==> str_views(v@) == regex_group_ones(pattern@, html@),
{
    match compile_pattern(pattern) {
        Some(re) => Some(pattern_group_ones(&re, html)),
        None => None,
    }
}

/// The release pages an APKMirror app page links to.
pub fn apkmirror_release_links(html: &str) -> (r: Option<Vec<String>>)
    ensures
        regex_compiles("href=\"(/apk/[^\"]+-release/)\""@) <==> r is Some,
        r matches Some(v) ==> str_views(v@) == regex_group_ones("href=\"(/apk/[^\"]+-release/)\""@, html@),
{
    page_links("href=\"(/apk/[^\"]+-release/)\"", html)
}

/// The variant pages an APKMirror release page links to.
pub fn apkmirror_variant_links(html: &str) -> (r: Option<Vec<String>>)
    ensures
        regex_compiles("href=\"(/apk/[^\"]+-android-apk-download/)\""@) <==> r is Some,
        r matches Some(v) ==> str_views(v@) == regex_group_ones("href=\"(/apk/[^\"]+-android-apk-download/)\""@, html@),
{
    page_links("href=\"(/apk/[^\"]+-android-apk-download/)\"", html)
}

/// The keyed download pages an APKMirror variant page links to.
pub fn apkmirror_key_links(html: &str) -> (r: Option<Vec<String>>)
    ensures
        regex_compiles("href=\"(/apk/[^\"]+/download/\\?key=[^\"]+)\""@) <==> r is Some,
        r matches Some(v) ==> str_views(v@) == regex_group_ones("href=\"(/apk/[^\"]+/download/\\?key=[^\"]+)\""@, html@),
{
    page_links("href=\"(/apk/[^\"]+/download/\\?key=[^\"]+)\"", html)
}

/// The `download.php` links of an APKMirror download page.
pub fn apkmirror_php_links(html: &str) -> (r: Option<Vec<String>>)
    ensures
        regex_compiles("href=\"(/wp-content/themes/APKMirror/download\\.php\\?[^\"]+)\""@) <==> r is Some,
        r matches Some(v) ==> str_views(v@) == regex_group_ones("href=\"(/wp-content/themes/APKMirror/download\\.php\\?[^\"]+)\""@, html@),
{
    page_links("href=\"(/wp-content/themes/APKMirror/download\\.php\\?[^\"]+)\"", html)
}

/// The API URL of the latest release of the repository a GitHub release
/// URL belongs to (`owner/repo` as the text between `github.com/` and
/// `/releases`); none when the URL names none.
pub fn github_latest_api_url(url: &str) -> (r: Option<String>)
    ensures
        ({
            let caps = regex_group_ones("github\\.com/([^/]+/[^/]+)/releases"@, url@);
            if regex_compiles("github\\.com/([^/]+/[^/]+)/releases"@) && caps.len() > 0 {
                r matches Some(u) && u@ == "https://api.github.com/repos/"@ + caps[0] + "/releases/latest"@
            } else {
                r is None
            }
        }),
{
    match page_links("github\\.com/([^/]+/[^/]+)/releases", url) {
        Some(caps) => {
            if caps.len() > 0 {
                assert(str_views(caps@)[0] == caps@[0]@);
                let mut u = string_from_str("https://api.github.com/repos/");
                push_str(&mut u, caps[0].as_str());
                push_str(&mut u, "/releases/latest");
                Some(u)
            } else {
                None
            }
        },
        None => None,
    }
}

/// The release link a build takes: for a target version, the first that
/// holds it with `-` for `.` (whole or up to its first `-`) or as written,
/// else the first; betas and alphas only when the target is one.
pub open spec fn apkmirror_release(links: Seq<Seq<char>>, target: Option<Seq<char>>) -> Option<Seq<char>> {
    let allow_beta = target is Some && beta_or_alpha(target->0);
    let rs = links.filter(|r: Seq<char>| allow_beta || !beta_or_alpha(r));
    if rs.len() == 0 {
        None
    } else {
        match target {
            Some(ver) => {
                let hy = ver.map_values(|c: char| if c == '.' { '-' } else { c });
                let base = base_version(ver).map_values(|c: char| if c == '.' { '-' } else { c });
                let i = first_where(rs, |r: Seq<char>| contains(r, hy) || contains(r, base) || contains(r, ver));
                if i < rs.len() {
                    Some(rs[i])
                } else {
                    Some(rs[0])
                }
            },
            None => Some(rs[0]),
        }
    }
}

/// The release page to load, from the release links of the app page at
/// `app_url`: an error when there are none, or only betas and alphas that
/// the target does not allow.
pub fn choose_apkmirror_release(links: &Vec<String>, target: Option<&str>, app_url: &str) -> (r: Result<String, String>)
    ensures
        str_views(links@).len() == 0 ==> (r matches Err(m) && m@ == "No release links found on "@ + app_url@),
        str_views(links@).len() > 0 ==> match apkmirror_release(str_views(links@), opt_str(target)) {
            Some(p) => r matches Ok(u) && u@ == "https://www.apkmirror.com"@ + p,
            None => r matches Err(m) && m@ == "Only beta/alpha release links found on "@ + app_url@,
        },
{
    if links.len() == 0 {
        let mut m = string_from_str("No release links found on ");
        push_str(&mut m, app_url);
        return Err(m);
    }
    let allow_beta = match target {
        Some(t) => is_beta_or_alpha(t),
        None => false,
    };
    let ghost lv = str_views(links@);
    let ghost keep = |r: Seq<char>| allow_beta || !beta_or_alpha(r);
    let mut rs: Vec<String> = Vec::new();
    let mut i: usize = 0;
    proof {
        reveal(Seq::filter);
        assert(lv.take(0) =~= Seq::<Seq<char>>::empty());
    }
    while i < links.len()
        invariant
            i <= links@.len(),
            lv == str_views(links@),
            keep == (|r: Seq<char>| allow_beta || !beta_or_alpha(r)),
            str_views(rs@) == lv.take(i as int).filter(keep),
        decreases links.len() - i,
    {
        proof {
            assert(lv.take(i + 1) =~= lv.take(i as int).push(lv[i as int]));
            lv.take(i as int).lemma_filter_push(lv[i as int], keep);
        }
        if allow_beta || !is_beta_or_alpha(links[i].as_str()) {
            let ghost r0 = str_views(rs@);
            rs.push(string_from_str(links[i].as_str()));
            assert(str_views(rs@) =~= r0.push(lv[i as int]));
        }
        i += 1;
    }
    assert(lv.take(links@.len() as int) =~= lv);
    assert(allow_beta == (opt_str(target) is Some && beta_or_alpha(opt_str(target)->0)));
    if rs.len() == 0 {
        let mut m = string_from_str("Only beta/alpha release links found on ");
        push_str(&mut m, app_url);
        return Err(m);
    }
    let ghost rv = str_views(rs@);
    let mut pick: usize = 0;
    match target {
        Some(ver) => {
            let hy = replace_char(ver, '.', '-');
            let b = base_of(ver);
            let base = replace_char(b.as_str(), '.', '-');
            let ghost p = |r: Seq<char>| contains(r, hy@) || contains(r, base@) || contains(r, ver@);
            let mut j: usize = 0;
            let mut found = false;
            while j < rs.len() && !found
                invariant
                    j <= rs@.len(),
                    rv == str_views(rs@),
                    p == (|r: Seq<char>| contains(r, hy@) || contains(r, base@) || contains(r, ver@)),
                    !found ==> forall|k: int| 0 <= k < j ==> !p(#[trigger] rv[k]),
                    found ==> j > 0 && pick == j - 1 && first_where(rv, p) == pick,
                decreases rs.len() - j,
            {
                assert(rv[j as int] == rs@[j as int]@);
                if str_contains(rs[j].as_str(), hy.as_str()) || str_contains(rs[j].as_str(), base.as_str())
                    || str_contains(rs[j].as_str(), ver) {
                    proof {
                        lemma_first_where(rv, p, j as int);
                    }
                    pick = j;
                    found = true;
                }
                j += 1;
            }
            if !found {
                proof {
                    lemma_first_where(rv, p, rv.len() as int);
                }
                pick = 0;
            }
        },
        None => {},
    }
    assert(rv[pick as int] == rs@[pick as int]@);
    let mut u = string_from_str("https://www.apkmirror.com");
    push_str(&mut u, rs[pick].as_str());
    Ok(u)
}

/// The variant page to load: the first variant link naming the
/// architecture, else the first; an error naming the release page when
/// there is none.
pub fn choose_apkmirror_variant(variants: &Vec<String>, arch: &str, release_url: &str) -> (r: Result<String, String>)
    ensures
        ({
            let vs = str_views(variants@);
            let i = first_where(vs, |v: Seq<char>| contains(v, arch@));
            if vs.len() == 0 {
                r matches Err(m) && m@ == "No variant links found on "@ + release_url@
            } else if i < vs.len() {
                r matches Ok(u) && u@ == "https://www.apkmirror.com"@ + vs[i]
            } else {
                r matches Ok(u) && u@ == "https://www.apkmirror.com"@ + vs[0]
            }
        }),
{
    if variants.len() == 0 {
        let mut m = string_from_str("No variant links found on ");
        push_str(&mut m, release_url);
        return Err(m);
    }
    let ghost vs = str_views(variants@);
    let ghost p = |v: Seq<char>| contains(v, arch@);
    let mut i: usize = 0;
    while i < variants.len()
        invariant
            i <= variants@.len(),
            vs == str_views(variants@),
            p == (|v: Seq<char>| contains(v, arch@)),
            forall|k: int| 0 <= k < i ==> !p(#[trigger] vs[k]),
        decreases variants.len() - i,
    {
        assert(vs[i as int] == variants@[i as int]@);
        if str_contains(variants[i].as_str(), arch) {
            proof {
                lemma_first_where(vs, p, i as int);
            }
            let mut u = string_from_str("https://www.apkmirror.com");
            push_str(&mut u, variants[i].as_str());
            return Ok(u);
        }
        i += 1;
    }
    proof {
        lemma_first_where(vs, p, vs.len() as int);
    }
    assert(vs[0] == variants@[0]@);
    let mut u = string_from_str("https://www.apkmirror.com");
    push_str(&mut u, variants[0].as_str());
    Ok(u)
}

/// The next page behind a link that a pattern's first group captures: the
/// first captured link on APKMirror, else an error naming `page_url`.
pub fn follow_link(links: &Vec<String>, what: &str, page_url: &str) -> (r: Result<String, String>)
    ensures
        links@.len() > 0 ==> (r matches Ok(u) && u@ == "https://www.apkmirror.com"@ + links@[0]@),
        links@.len() == 0 ==> (r matches Err(m) && m@ == "No "@ + what@ + " found on "@ + page_url@),
{
    if links.len() > 0 {
        let mut u = string_from_str("https://www.apkmirror.com");
        push_str(&mut u, links[0].as_str());
        Ok(u)
    } else {
        let mut m = string_from_str("No ");
        push_str(&mut m, what);
        push_str(&mut m, " found on ");
        push_str(&mut m, page_url);
        Err(m)
    }
}

// ---------------------------------------------------------------------
// GitHub release assets
// ---------------------------------------------------------------------

/// A downloadable APK of a release: named `.apk`, and no exclusion pattern
/// occurs in its name.
pub open spec fn apk_asset(name: Seq<char>, excludes: Seq<Seq<char>>) -> bool {
    crate::text::ends_with(name, ".apk"@) && !(exists|k: int| 0 <= k < excludes.len() && contains(name, #[trigger] excludes[k]))
}

/// The download URLs of a release's APK assets that have one, in order.
pub open spec fn apk_asset_urls(assets: Seq<(Seq<char>, Option<Seq<char>>)>, excludes: Seq<Seq<char>>) -> Seq<Seq<char>> {
    assets.filter(|a: (Seq<char>, Option<Seq<char>>)| apk_asset(a.0, excludes) && a.1 is Some).map_values(
        |a: (Seq<char>, Option<Seq<char>>)| a.1->0,
    )
}

/// The asset to download from a GitHub release: the first APK naming the
/// architecture, else the first universal one (`all` or `universal` in its
/// URL), else the first; none when the release has no APK.
pub open spec fn github_apk_choice(urls: Seq<Seq<char>>, arch: Seq<char>) -> Option<Seq<char>> {
    let i = first_where(urls, |u: Seq<char>| contains(u, arch));
    let j = first_where(urls, |u: Seq<char>| contains(u, "all"@) || contains(u, "universal"@));
    if i < urls.len() {
        Some(urls[i])
    } else if j < urls.len() {
        Some(urls[j])
    } else if urls.len() > 0 {
        Some(urls[0])
    } else {
        None
    }
}

fn excluded(name: &str, excludes: &Vec<String>) -> (r: bool)
    ensures
        r == exists|k: int| 0 <= k < excludes@.len() && contains(name@, #[trigger] str_views(excludes@)[k]),
{
    let mut i: usize = 0;
    while i < excludes.len()
        invariant
            i <= excludes@.len(),
            forall|k: int| 0 <= k < i ==> !contains(name@, #[trigger] str_views(excludes@)[k]),
        decreases excludes.len() - i,
    {
        assert(str_views(excludes@)[i as int] == excludes@[i as int]@);
        if str_contains(name, excludes[i].as_str()) {
            return true;
        }
        i += 1;
    }
    false
}

fn first_containing(urls: &Vec<String>, a: &str) -> (r: Option<usize>)
    ensures
        r matches Some(k) ==> k < urls@.len(),
        ({
            let i = first_where(str_views(urls@), |u: Seq<char>| contains(u, a@));
            if i < urls@.len() {
                r == Some(i as usize)
            } else {
                r is None
            }
        }),
{
    let ghost p = |u: Seq<char>| contains(u, a@);
    let ghost uv = str_views(urls@);
    let mut i: usize = 0;
    while i < urls.len()
        invariant
            i <= urls@.len(),
            uv == str_views(urls@),
            p == (|u: Seq<char>| contains(u, a@)),
            forall|k: int| 0 <= k < i ==> !p(#[trigger] uv[k]),
        decreases urls.len() - i,
    {
        assert(uv[i as int] == urls@[i as int]@);
        if str_contains(urls[i].as_str(), a) {
            proof {
                lemma_first_where(uv, p, i as int);
            }
            return Some(i);
        }
        i += 1;
    }
    proof {
        lemma_first_where(uv, p, uv.len() as int);
    }
    None
}

fn first_universal(urls: &Vec<String>) -> (r: Option<usize>)
    ensures
        r matches Some(k) ==> k < urls@.len(),
        ({
            let i = first_where(str_views(urls@), |u: Seq<char>| contains(u, "all"@) || contains(u, "universal"@));
            if i < urls@.len() {
                r == Some(i as usize)
            } else {
                r is None
            }
        }),
{
    let ghost p = |u: Seq<char>| contains(u, "all"@) || contains(u, "universal"@);
    let ghost uv = str_views(urls@);
    let mut i: usize = 0;
    while i < urls.len()
        invariant
            i <= urls@.len(),
            uv == str_views(urls@),
            p == (|u: Seq<char>| contains(u, "all"@) || contains(u, "universal"@)),
            forall|k: int| 0 <= k < i ==> !p(#[trigger] uv[k]),
        decreases urls.len() - i,
    {
        assert(uv[i as int] == urls@[i as int]@);
        if str_contains(urls[i].as_str(), "all") || str_contains(urls[i].as_str(), "universal") {
            proof {
                lemma_first_where(uv, p, i as int);
            }
            return Some(i);
        }
        i += 1;
    }
    proof {
        lemma_first_where(uv, p, uv.len() as int);
    }
    None
}

/// The APK to download from a GitHub release, given its assets as (name,
/// download URL) pairs; none when it has no APK (the release URL itself is
/// then downloaded).
pub fn choose_github_apk(assets: &Vec<(String, Option<String>)>, arch: &str, excludes: &Vec<String>) -> (r: Option<String>)
    ensures
        crate::text::opt_string_view(r) == github_apk_choice(
            apk_asset_urls(
                assets@.map_values(|a: (String, Option<String>)| (a.0@, crate::text::opt_string_view(a.1))),
                str_views(excludes@),
            ),
            arch@,
        ),
{
    let ghost av = assets@.map_values(|a: (String, Option<String>)| (a.0@, crate::text::opt_string_view(a.1)));
    let ghost ev = str_views(excludes@);
    let ghost keep = |a: (Seq<char>, Option<Seq<char>>)| apk_asset(a.0, str_views(excludes@)) && a.1 is Some;
    let ghost f = |a: (Seq<char>, Option<Seq<char>>)| a.1->0;
    let mut urls: Vec<String> = Vec::new();
    let mut i: usize = 0;
    proof {
        reveal(Seq::filter);
        assert(av.take(0) =~= Seq::<(Seq<char>, Option<Seq<char>>)>::empty());
    }
    while i < assets.len()
        invariant
            i <= assets@.len(),
            av == assets@.map_values(|a: (String, Option<String>)| (a.0@, crate::text::opt_string_view(a.1))),
            ev == str_views(excludes@),
            keep == (|a: (Seq<char>, Option<Seq<char>>)| apk_asset(a.0, str_views(excludes@)) && a.1 is Some),
            f == (|a: (Seq<char>, Option<Seq<char>>)| a.1->0),
            str_views(urls@) == av.take(i as int).filter(keep).map_values(f),
        decreases assets.len() - i,
    {
        proof {
            assert(av.take(i + 1) =~= av.take(i as int).push(av[i as int]));
            av.take(i as int).lemma_filter_push(av[i as int], keep);
        }
        let (name, url) = (&assets[i].0, &assets[i].1);
        let ok = crate::text::str_ends_with(name.as_str(), ".apk") && !excluded(name.as_str(), excludes);
        match url {
            Some(u) => {
                if ok {
                    let ghost u0 = str_views(urls@);
                    urls.push(string_from_str(u.as_str()));
                    assert(str_views(urls@) =~= u0.push(u@));
                    assert(av.take(i + 1).filter(keep) =~= av.take(i as int).filter(keep).push(av[i as int]));
                    assert(av.take(i + 1).filter(keep).map_values(f) =~= av.take(i as int).filter(keep).map_values(f).push(u@));
                }
            },
            None => {},
        }
        i += 1;
    }
    assert(av.take(assets@.len() as int) =~= av);
    let ghost uv = str_views(urls@);
    assert(uv == apk_asset_urls(av, str_views(excludes@)));
    proof {
        crate::text::lemma_first_where_range(uv, |u: Seq<char>| contains(u, arch@));
        crate::text::lemma_first_where_range(uv, |u: Seq<char>| contains(u, "all"@) || contains(u, "universal"@));
    }
    match first_containing(&urls, arch) {
        Some(k) => {
            assert(uv[k as int] == urls@[k as int]@);
            return Some(string_from_str(urls[k].as_str()));
        },
        None => {},
    }
    match first_universal(&urls) {
        Some(k) => {
            assert(uv[k as int] == urls@[k as int]@);
            return Some(string_from_str(urls[k].as_str()));
        },
        None => {},
    }
    if urls.len() > 0 {
        assert(uv[0] == urls@[0]@);
        Some(string_from_str(urls[0].as_str()))
    } else {
        None
    }
}

} // verus!
