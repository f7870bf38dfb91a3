//! GitHub releases: which release of a repository a build takes, and which
//! of its assets.

use vstd::prelude::*;
use crate::text::{
    first_where, lemma_first_where, strip_leading, strip_leading_exec,
    chars_of, contains, eq_ignore_case, ends_with, lowercase_of, push_str, starts_with, str_contains,
    str_ends_with, str_eq, str_eq_ignore_case, str_starts_with, str_to_lowercase, string_from_str,
    string_of,
};

verus! {

/// A release as the GitHub API lists it.
#[derive(Clone)]
pub struct GhRelease {
    pub tag_name: String,
    pub target_commitish: String,
    pub prerelease: bool,
    pub assets: Vec<GhAsset>,
}

/// A file attached to a release.
#[derive(Clone)]
pub struct GhAsset {
    pub name: String,
    pub browser_download_url: String,
}

/// A release that a development branch takes: one built from `dev`, tagged
/// with `dev`, or a pre-release.
pub open spec fn dev_release(r: GhRelease) -> bool {
    eq_ignore_case(r.target_commitish@, "dev"@) || contains(lowercase_of(r.tag_name@), "dev"@) || r.prerelease
}

/// A release that branch or version `b` names: tagged `b`, tagged the same
/// but for leading `v`s, with `b` in its tag, or built from `b`.
pub open spec fn named_release(r: GhRelease, b: Seq<char>) -> bool {
    r.tag_name@ == b || strip_leading(r.tag_name@, 'v') == strip_leading(b, 'v') || contains(r.tag_name@, b)
        || eq_ignore_case(r.target_commitish@, b)
}

/// How the release to use is found.
#[derive(Debug, Clone, PartialEq, Eq)]
pub enum ReleaseChoice {
    /// The listed release at this index.
    Listed(usize),
    /// The release with this tag, fetched by tag (the latest release where
    /// that fails).
    ByTag(String),
    /// The repository's latest release.
    Latest,
}

/// The tag fetched for branch `b` when no listed release matches: `b`
/// itself when it starts with `v`, else `v` before it.
pub open spec fn tag_for_branch(b: Seq<char>) -> Seq<char> {
    if starts_with(b, "v"@) {
        b
    } else {
        "v"@ + b
    }
}

/// The release to use among the listed ones: for a development branch (one
/// with `dev` in its lower-cased name) the first development release; for
/// another branch the first release it names; failing those, the release
/// fetched by tag. With no branch, the first stable release, else the first
/// listed, else the latest.
pub open spec fn release_choice(rs: Seq<GhRelease>, branch: Option<Seq<char>>) -> ReleaseChoiceView {
    match branch {
        Some(b) => {
            let i = if contains(lowercase_of(b), "dev"@) {
                first_where(rs, |r: GhRelease| dev_release(r))
            } else {
                first_where(rs, |r: GhRelease| named_release(r, b))
            };
            if i < rs.len() {
                ReleaseChoiceView::Listed(i)
            } else {
                ReleaseChoiceView::ByTag(tag_for_branch(b))
            }
        },
        None => {
            let i = first_where(rs, |r: GhRelease| !r.prerelease);
            if i < rs.len() {
                ReleaseChoiceView::Listed(i)
            } else if rs.len() > 0 {
                ReleaseChoiceView::Listed(0)
            } else {
                ReleaseChoiceView::Latest
            }
        },
    }
}

/// A release choice with its tag taken by view.
pub enum ReleaseChoiceView {
    Listed(int),
    ByTag(Seq<char>),
    Latest,
}

/// A release choice, viewed.
pub open spec fn choice_view(c: ReleaseChoice) -> ReleaseChoiceView {
    match c {
        ReleaseChoice::Listed(i) => ReleaseChoiceView::Listed(i as int),
        ReleaseChoice::ByTag(t) => ReleaseChoiceView::ByTag(t@),
        ReleaseChoice::Latest => ReleaseChoiceView::Latest,
    }
}

fn is_dev_release(r: &GhRelease) -> (b: bool)
    ensures
        b == dev_release(*r),
{
    let low = str_to_lowercase(r.tag_name.as_str());
    str_eq_ignore_case(r.target_commitish.as_str(), "dev") || str_contains(low.as_str(), "dev") || r.prerelease
}

fn is_named_release(r: &GhRelease, b: &str) -> (m: bool)
    ensures
        m == named_release(*r, b@),
{
    if str_eq(r.tag_name.as_str(), b) {
        return true;
    }
    let t = strip_leading_exec(r.tag_name.as_str(), 'v');
    let c = strip_leading_exec(b, 'v');
    str_eq(t.as_str(), c.as_str()) || str_contains(r.tag_name.as_str(), b) || str_eq_ignore_case(r.target_commitish.as_str(), b)
}

/// Chooses the release to use (see [`release_choice`]).
pub fn pick_release(releases: &Vec<GhRelease>, branch: Option<&str>) -> (r: ReleaseChoice)
    ensures
        choice_view(r) == release_choice(releases@, crate::builder::opt_str(branch)),
{
    let ghost rs = releases@;
    match branch {
        Some(b) => {
            let low = str_to_lowercase(b);
            let dev = str_contains(low.as_str(), "dev");
            let ghost p = if dev {
                |r: GhRelease| dev_release(r)
            } else {
                |r: GhRelease| named_release(r, b@)
            };
            let mut i: usize = 0;
            while i < releases.len()
                invariant
                    i <= rs.len(),
                    rs == releases@,
                    branch == Some(b),
                    dev == contains(lowercase_of(b@), "dev"@),
                    dev ==> p == (|r: GhRelease| dev_release(r)),
                    !dev ==> p == (|r: GhRelease| named_release(r, b@)),
                    forall|j: int| 0 <= j < i ==> !p(#[trigger] rs[j]),
                decreases releases.len() - i,
            {
                let hit = if dev {
                    is_dev_release(&releases[i])
                } else {
                    is_named_release(&releases[i], b)
                };
                if hit {
                    proof {
                        lemma_first_where(rs, p, i as int);
                    }
                    return ReleaseChoice::Listed(i);
                }
                i += 1;
            }
            proof {
                lemma_first_where(rs, p, rs.len() as int);
            }
            let tag = if str_starts_with(b, "v") {
                string_from_str(b)
            } else {
                let mut t = string_from_str("v");
                push_str(&mut t, b);
                t
            };
            ReleaseChoice::ByTag(tag)
        },
        None => {
            let ghost p = |r: GhRelease| !r.prerelease;
            let mut i: usize = 0;
            while i < releases.len()
                invariant
                    i <= rs.len(),
                    rs == releases@,
                    branch is None,
                    p == (|r: GhRelease| !r.prerelease),
                    forall|j: int| 0 <= j < i ==> !p(#[trigger] rs[j]),
                decreases releases.len() - i,
            {
                if !releases[i].prerelease {
                    proof {
                        lemma_first_where(rs, p, i as int);
                    }
                    return ReleaseChoice::Listed(i);
                }
                i += 1;
            }
            proof {
                lemma_first_where(rs, p, rs.len() as int);
            }
            if releases.len() > 0 {
                ReleaseChoice::Listed(0)
            } else {
                ReleaseChoice::Latest
            }
        },
    }
}

/// What an asset's name must start with: the pattern up to its first `*`
/// (all of it when it has none).
pub open spec fn glob_prefix(p: Seq<char>) -> Seq<char> {
    let i = first_where(p, |c: char| c == '*');
    p.take(i)
}

/// What an asset's name must end with: the pattern after its last `*` (all
/// of it when it has none).
pub open spec fn glob_suffix(p: Seq<char>) -> Seq<char> {
    let i = first_where(p.reverse(), |c: char| c == '*');
    p.skip(p.len() - i)
}

/// An asset that the pattern names.
pub open spec fn asset_matches(a: GhAsset, pattern: Seq<char>) -> bool {
    starts_with(a.name@, glob_prefix(pattern)) && ends_with(a.name@, glob_suffix(pattern))
}

/// The download URL of the first asset of `release` that `pattern` names
/// (its text before the first and after the last `*`), or an error naming
/// the pattern and `repo`.
pub fn asset_url(release: &GhRelease, pattern: &str, repo: &str) -> (r: Result<String, String>)
    ensures
        ({
            let i = first_where(release.assets@, |a: GhAsset| asset_matches(a, pattern@));
            if i < release.assets@.len() {
                r matches Ok(u) && u@ == release.assets@[i].browser_download_url@
            } else {
                r matches Err(m) && m@ == "No asset matching '"@ + pattern@ + "' in "@ + repo@
            }
        }),
{
    let v = chars_of(pattern);
    let ghost star = |c: char| c == '*';
    let mut a: usize = 0;
    while a < v.len() && v[a] != '*'
        invariant
            a <= v@.len(),
            v@ == pattern@,
            star == (|c: char| c == '*'),
            forall|j: int| 0 <= j < a ==> !star(#[trigger] v@[j]),
        decreases v.len() - a,
    {
        a += 1;
    }
    proof {
        lemma_first_where(v@, star, a as int);
    }
    let prefix = string_of(v.as_slice(), 0, a);
    assert(prefix@ == glob_prefix(pattern@));
    let mut b: usize = v.len();
    while b > 0 && v[b - 1] != '*'
        invariant
            b <= v@.len(),
            v@ == pattern@,
            star == (|c: char| c == '*'),
            forall|j: int| 0 <= j < v@.len() - b ==> !star(#[trigger] v@.reverse()[j]),
        decreases b,
    {
        assert(v@.reverse()[v@.len() - b] == v@[b - 1]);
        b -= 1;
    }
    proof {
        if b > 0 {
            assert(v@.reverse()[v@.len() - b] == v@[b - 1]);
        }
        lemma_first_where(v@.reverse(), star, v@.len() - b);
    }
    let suffix = string_of(v.as_slice(), b, v.len());
    assert(suffix@ =~= glob_suffix(pattern@));
    let ghost m = |x: GhAsset| asset_matches(x, pattern@);
    let mut i: usize = 0;
    while i < release.assets.len()
        invariant
            i <= release.assets@.len(),
            prefix@ == glob_prefix(pattern@),
            suffix@ == glob_suffix(pattern@),
            m == (|x: GhAsset| asset_matches(x, pattern@)),
            forall|j: int| 0 <= j < i ==> !m(#[trigger] release.assets@[j]),
        decreases release.assets.len() - i,
    {
        let x = &release.assets[i];
        if str_starts_with(x.name.as_str(), prefix.as_str()) && str_ends_with(x.name.as_str(), suffix.as_str()) {
            proof {
                lemma_first_where(release.assets@, m, i as int);
            }
            return Ok(string_from_str(x.browser_download_url.as_str()));
        }
        i += 1;
    }
    proof {
        lemma_first_where(release.assets@, m, release.assets@.len() as int);
    }
    let mut msg = string_from_str("No asset matching '");
    push_str(&mut msg, pattern);
    push_str(&mut msg, "' in ");
    push_str(&mut msg, repo);
    Err(msg)
}

/// The error a listing response ends with: `404` is a missing repository;
/// `403` with no requests left (`X-RateLimit-Remaining: 0`) is the rate
/// limit; any other status goes on to the general status check.
pub fn listing_status_error(repo: &str, status: u16, remaining: Option<&str>) -> (r: Option<String>)
    ensures
        status == 404 ==> (r matches Some(m) && m@ == "GitHub repo "@ + repo@ + " not found (404)"@),
        status == 403 ==> match remaining {
            Some(x) if x@ == "0"@ => (r matches Some(m) && m@ == "GitHub API rate limit exceeded for "@ + repo@
                + ". Set GITHUB_TOKEN to increase the limit."@),
            _ => r is None,
        },
        status != 404 && status != 403 ==> r is None,
{
    if status == 404 {
        let mut m = string_from_str("GitHub repo ");
        push_str(&mut m, repo);
        push_str(&mut m, " not found (404)");
        return Some(m);
    }
    if status == 403 {
        if let Some(x) = remaining {
            if str_eq(x, "0") {
                let mut m = string_from_str("GitHub API rate limit exceeded for ");
                push_str(&mut m, repo);
                push_str(&mut m, ". Set GITHUB_TOKEN to increase the limit.");
                return Some(m);
            }
        }
    }
    None
}

} // verus!
