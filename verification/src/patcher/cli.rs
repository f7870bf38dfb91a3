//! The arguments that the patcher CLI is run with.

use vstd::prelude::*;
use crate::config::apps::AppConfig;
use crate::patcher::metadata::safe_repo;
use crate::patcher::plan::PatchPlan;
use crate::text::{
    clone_strings, contains, opt_string_view, push_str, replace_char, str_contains, str_views,
    str_words, string_from_str, strip_char, strip_char_exec, words,
};

verus! {

/// What the patcher CLI is given.
pub struct MorpheCliArgs {
    pub cli_jar: String,
    pub patches_arg: String,
    pub output_apk: String,
    pub input_apk: String,
    pub included: Vec<String>,
    pub excluded: Vec<String>,
    pub raw_args: Vec<String>,
    pub keystore: Option<(String, String, String)>,
}

/// The patches version or branch an app pins, the version first.
pub open spec fn pinned_target(app: AppConfig) -> Option<Seq<char>> {
    match opt_string_view(app.patches_version) {
        Some(v) => Some(v),
        None => opt_string_view(app.patch_branch),
    }
}

/// The patch bundle argument. The versioned bundle
/// `<tools>/patches_<repo>_<target>.mpp` (for a pinned target) if it
/// exists, else the plain `<tools>/patches_<repo>.mpp` if it exists, else
/// the first bundle found in the tools directory, else the repository's
/// URL (`/` in the repository or alias marking a repository; the default
/// patches repository otherwise).
pub open spec fn patches_argument(
    tools_dir: Seq<char>,
    repo_or_alias: Seq<char>,
    target: Option<Seq<char>>,
    versioned_exists: bool,
    plain_exists: bool,
    dir_bundle: Option<Seq<char>>,
) -> Seq<char> {
    let safe = safe_repo(repo_or_alias);
    let plain = tools_dir + "/patches_"@ + safe + ".mpp"@;
    let picked = match target {
        Some(t) => if versioned_exists {
            tools_dir + "/patches_"@ + safe + "_"@ + t + ".mpp"@
        } else if plain_exists {
            plain
        } else {
            seq![]
        },
        None => if plain_exists {
            plain
        } else {
            seq![]
        },
    };
    if picked.len() > 0 {
        picked
    } else {
        match dir_bundle {
            Some(p) => p,
            None => if contains(repo_or_alias, "/"@) {
                "https://github.com/"@ + repo_or_alias
            } else {
                "https://github.com/MorpheApp/morphe-patches"@
            },
        }
    }
}

/// The app's extra patcher arguments: split at white space, quotes taken
/// off both ends of each.
pub open spec fn raw_patcher_args(app: AppConfig) -> Seq<Seq<char>> {
    match opt_string_view(app.patcher_args) {
        Some(a) => words(a).map_values(|w: Seq<char>| strip_char(w, '\'')),
        None => seq![],
    }
}

/// The arguments of a patch run. Which bundle files exist, the first bundle
/// in the tools directory (none when it cannot be read), whether the app's
/// keystore file exists, and the keystore password are given by the caller.
pub fn build_args(
    tools_dir: &str,
    repo_or_alias: &str,
    app: &AppConfig,
    input_apk: &str,
    output_apk: &str,
    plan: &PatchPlan,
    versioned_exists: bool,
    plain_exists: bool,
    dir_bundle: Option<String>,
    keystore_exists: bool,
    keystore_password: &str,
) -> (r: MorpheCliArgs)
    ensures
        r.cli_jar@ == tools_dir@ + "/morphe-cli.jar"@,
        r.patches_arg@ == patches_argument(
            tools_dir@,
            repo_or_alias@,
            pinned_target(*app),
            versioned_exists,
            plain_exists,
            opt_string_view(dir_bundle),
        ),
        r.output_apk@ == output_apk@,
        r.input_apk@ == input_apk@,
        str_views(r.included@) == str_views(plan.included@),
        str_views(r.excluded@) == str_views(plan.excluded@),
        str_views(r.raw_args@) == raw_patcher_args(*app),
        match app.keystore {
            Some(ks) if keystore_exists => r.keystore matches Some((f, a, p)) && f@ == ks.file@ && a@ == ks.alias@
                && p@ == keystore_password@,
            _ => r.keystore is None,
        },
{
    let mut cli_jar = string_from_str(tools_dir);
    push_str(&mut cli_jar, "/morphe-cli.jar");
    let safe = replace_char(repo_or_alias, '/', '_');
    assert(safe@ =~= safe_repo(repo_or_alias@));
    let mut plain = string_from_str(tools_dir);
    push_str(&mut plain, "/patches_");
    push_str(&mut plain, safe.as_str());
    push_str(&mut plain, ".mpp");
    let target: Option<&String> = match &app.patches_version {
        Some(v) => Some(v),
        None => match &app.patch_branch {
            Some(b) => Some(b),
            None => None,
        },
    };
    let picked: String = match target {
        Some(t) => {
            if versioned_exists {
                let mut v = string_from_str(tools_dir);
                push_str(&mut v, "/patches_");
                push_str(&mut v, safe.as_str());
                push_str(&mut v, "_");
                push_str(&mut v, t.as_str());
                push_str(&mut v, ".mpp");
                v
            } else if plain_exists {
                plain
            } else {
                String::new()
            }
        },
        None => {
            if plain_exists {
                plain
            } else {
                String::new()
            }
        },
    };
    let patches_arg = if picked.as_str().unicode_len() > 0 {
        picked
    } else {
        match dir_bundle {
            Some(p) => p,
            None => {
                if str_contains(repo_or_alias, "/") {
                    let mut u = string_from_str("https://github.com/");
                    push_str(&mut u, repo_or_alias);
                    u
                } else {
                    string_from_str("https://github.com/MorpheApp/morphe-patches")
                }
            },
        }
    };
    let mut raw_args: Vec<String> = Vec::new();
    if let Some(args) = &app.patcher_args {
        let ws = str_words(args.as_str());
        let ghost wv = str_views(ws@);
        let mut i: usize = 0;
        while i < ws.len()
            invariant
                i <= ws@.len(),
                wv == str_views(ws@),
                str_views(raw_args@) == wv.take(i as int).map_values(|w: Seq<char>| strip_char(w, '\'')),
            decreases ws.len() - i,
        {
            let ghost r0 = str_views(raw_args@);
            raw_args.push(strip_char_exec(ws[i].as_str(), '\''));
            proof {
                assert(wv[i as int] == ws@[i as int]@);
                assert(wv.take(i + 1) =~= wv.take(i as int).push(wv[i as int]));
                assert(str_views(raw_args@) =~= r0.push(strip_char(wv[i as int], '\'')));
                assert(str_views(raw_args@) =~= wv.take(i + 1).map_values(|w: Seq<char>| strip_char(w, '\'')));
            }
            i += 1;
        }
        assert(wv.take(ws@.len() as int) =~= wv);
    } else {
        assert(str_views(raw_args@) =~= Seq::<Seq<char>>::empty());
    }
    let keystore = match &app.keystore {
        Some(ks) => {
            if keystore_exists {
                Some((string_from_str(ks.file.as_str()), string_from_str(ks.alias.as_str()), string_from_str(keystore_password)))
            } else {
                None
            }
        },
        None => None,
    };
    let included = clone_strings(&plan.included);
    let excluded = clone_strings(&plan.excluded);
    MorpheCliArgs {
        cli_jar,
        patches_arg,
        output_apk: string_from_str(output_apk),
        input_apk: string_from_str(input_apk),
        included,
        excluded,
        raw_args,
        keystore,
    }
}

} // verus!
