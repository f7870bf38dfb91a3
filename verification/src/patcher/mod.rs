//! Patch selection and the patcher's command line.

pub mod cli;
pub mod metadata;
pub mod name;
pub mod plan;

use vstd::prelude::*;
use crate::config::apps::{AppConfig, HookWhen, PostPatchHook};
use crate::config::loader::Config;
use crate::patcher::cli::MorpheCliArgs;
use crate::text::{push_str, str_eq, str_views, string_from_str};

verus! {

/// Where a patched APK is written: `<output>/<id>-root.apk` for the root
/// variant of an app built in both modes, else `<output>/<id>-patched.apk`.
pub fn patched_output_apk(output_dir: &str, id: &str, is_root: bool, app_mode: &str) -> (r: String)
    ensures
        r@ == output_dir@ + "/"@ + id@ + (if is_root && app_mode@ == "both"@ {
            "-root.apk"@
        } else {
            "-patched.apk"@
        }),
{
    let mut p = string_from_str(output_dir);
    push_str(&mut p, "/");
    push_str(&mut p, id);
    if is_root && str_eq(app_mode, "both") {
        push_str(&mut p, "-root.apk");
    } else {
        push_str(&mut p, "-patched.apk");
    }
    p
}

/// The repository behind an app's patch source: the configured one, else
/// the source name itself.
pub fn source_repo(cfg: &Config, app: &AppConfig) -> (r: String)
    ensures
        r@ == crate::patcher::metadata::mpp_repo(*cfg, *app),
{
    match cfg.patch_sources.get(app.patch_source.as_str()) {
        Some(p) => string_from_str(p.repo.as_str()),
        None => string_from_str(app.patch_source.as_str()),
    }
}

/// The four keystore options of the patcher.
pub open spec fn keystore_argv(file: Seq<char>, alias: Seq<char>, password: Seq<char>) -> Seq<Seq<char>> {
    seq![
        "--keystore="@ + file,
        "--keystore-entry-alias="@ + alias,
        "--keystore-password="@ + password,
        "--keystore-entry-password="@ + password,
    ]
}

/// `flag` before each of `ps`.
pub open spec fn flagged(flag: Seq<char>, ps: Seq<Seq<char>>) -> Seq<Seq<char>>
    decreases ps.len(),
{
    if ps.len() == 0 {
        seq![]
    } else {
        flagged(flag, ps.drop_last()) + seq![flag, ps.last()]
    }
}

/// The Java arguments of a patch run: the CLI jar's `patch` command with the
/// bundle, `--continue-on-error` and the output; `--exclusive` when patches
/// are included by name; the app's keystore options, else those of the
/// resolved keystore; `-e` before each included and `-d` before each
/// excluded patch; the extra arguments; and the input APK last.
pub open spec fn patch_argv(args: MorpheCliArgs, file: Seq<char>, alias: Seq<char>, password: Seq<char>) -> Seq<Seq<char>> {
    seq!["-jar"@, args.cli_jar@, "patch"@, "--patches="@ + args.patches_arg@, "--continue-on-error"@, "-o"@, args.output_apk@]
        + (if args.included@.len() > 0 {
        seq!["--exclusive"@]
    } else {
        Seq::<Seq<char>>::empty()
    }) + match args.keystore {
        Some((f, a, p)) => keystore_argv(f@, a@, p@),
        None => keystore_argv(file, alias, password),
    } + flagged("-e"@, str_views(args.included@)) + flagged("-d"@, str_views(args.excluded@)) + str_views(
        args.raw_args@,
    ) + seq![args.input_apk@]
}

fn push_keystore(out: &mut Vec<String>, file: &str, alias: &str, password: &str)
    ensures
        str_views(final(out)@) == str_views(old(out)@) + keystore_argv(file@, alias@, password@),
{
    let ghost o0 = str_views(out@);
    let mut a = string_from_str("--keystore=");
    push_str(&mut a, file);
    let mut b = string_from_str("--keystore-entry-alias=");
    push_str(&mut b, alias);
    let mut c = string_from_str("--keystore-password=");
    push_str(&mut c, password);
    let mut d = string_from_str("--keystore-entry-password=");
    push_str(&mut d, password);
    out.push(a);
    out.push(b);
    out.push(c);
    out.push(d);
    assert(str_views(out@) =~= o0 + keystore_argv(file@, alias@, password@));
}

fn push_flagged(out: &mut Vec<String>, flag: &str, ps: &Vec<String>)
    ensures
        str_views(final(out)@) == str_views(old(out)@) + flagged(flag@, str_views(ps@)),
{
    let ghost o0 = str_views(out@);
    let ghost pv = str_views(ps@);
    let mut i: usize = 0;
    assert(o0 + flagged(flag@, pv.take(0)) =~= o0);
    while i < ps.len()
        invariant
            i <= ps@.len(),
            pv == str_views(ps@),
            str_views(out@) == o0 + flagged(flag@, pv.take(i as int)),
        decreases ps.len() - i,
    {
        let ghost prev = str_views(out@);
        out.push(string_from_str(flag));
        out.push(string_from_str(ps[i].as_str()));
        proof {
            assert(str_views(out@) =~= prev + seq![flag@, ps@[i as int]@]);
            assert(pv.take(i + 1).drop_last() =~= pv.take(i as int));
            assert(flagged(flag@, pv.take(i + 1)) == flagged(flag@, pv.take(i as int)) + seq![flag@, ps@[i as int]@]);
            assert(pv.take(i + 1).last() == ps@[i as int]@);
            assert(str_views(out@) =~= o0 + flagged(flag@, pv.take(i + 1)));
        }
        i += 1;
    }
    assert(pv.take(ps@.len() as int) =~= pv);
}

/// The Java arguments of a patch run (see [`patch_argv`]); the resolved
/// keystore is used where the app names none that exists.
pub fn patch_command(args: &MorpheCliArgs, ks_file: &str, ks_alias: &str, ks_password: &str) -> (r: Vec<String>)
    ensures
        str_views(r@) == patch_argv(*args, ks_file@, ks_alias@, ks_password@),
{
    let mut out: Vec<String> = Vec::new();
    out.push(string_from_str("-jar"));
    out.push(string_from_str(args.cli_jar.as_str()));
    out.push(string_from_str("patch"));
    let mut p = string_from_str("--patches=");
    push_str(&mut p, args.patches_arg.as_str());
    out.push(p);
    out.push(string_from_str("--continue-on-error"));
    out.push(string_from_str("-o"));
    out.push(string_from_str(args.output_apk.as_str()));
    let ghost head = str_views(out@);
    assert(head =~= seq!["-jar"@, args.cli_jar@, "patch"@, "--patches="@ + args.patches_arg@, "--continue-on-error"@, "-o"@, args.output_apk@]);
    if args.included.len() > 0 {
        out.push(string_from_str("--exclusive"));
        assert(str_views(out@) =~= head + seq!["--exclusive"@]);
    } else {
        assert(str_views(out@) =~= head + Seq::<Seq<char>>::empty());
    }
    match &args.keystore {
        Some((f, a, pw)) => push_keystore(&mut out, f.as_str(), a.as_str(), pw.as_str()),
        None => push_keystore(&mut out, ks_file, ks_alias, ks_password),
    }
    push_flagged(&mut out, "-e", &args.included);
    push_flagged(&mut out, "-d", &args.excluded);
    let mut i: usize = 0;
    let ghost mid = str_views(out@);
    let ghost raw = str_views(args.raw_args@);
    assert(mid + raw.take(0) =~= mid);
    while i < args.raw_args.len()
        invariant
            i <= args.raw_args@.len(),
            raw == str_views(args.raw_args@),
            str_views(out@) == mid + raw.take(i as int),
        decreases args.raw_args.len() - i,
    {
        let ghost prev = str_views(out@);
        out.push(string_from_str(args.raw_args[i].as_str()));
        proof {
            assert(str_views(out@) =~= prev.push(raw[i as int]));
            assert(raw.take(i + 1) =~= raw.take(i as int).push(raw[i as int]));
            assert(str_views(out@) =~= mid + raw.take(i + 1));
        }
        i += 1;
    }
    assert(raw.take(args.raw_args@.len() as int) =~= raw);
    let ghost before = str_views(out@);
    out.push(string_from_str(args.input_apk.as_str()));
    assert(str_views(out@) =~= before + seq![args.input_apk@]);
    out
}

/// A hook runs for the variant: root hooks for root builds, non-root hooks
/// for the others, the rest always.
pub open spec fn hook_runs(when: HookWhen, is_root: bool) -> bool {
    match when {
        HookWhen::Root => is_root,
        HookWhen::Nonroot => !is_root,
        HookWhen::Always => true,
    }
}

/// Whether a hook runs for the variant.
pub fn hook_applies(hook: &PostPatchHook, is_root: bool) -> (r: bool)
    ensures
        r == hook_runs(hook.when, is_root),
{
    match hook.when {
        HookWhen::Root => is_root,
        HookWhen::Nonroot => !is_root,
        HookWhen::Always => true,
    }
}

/// How a hook run ended.
pub enum HookOutcome {
    Succeeded,
    /// The script exited unsuccessfully, with this status.
    ExitedWith(String),
    /// The script could not be started, with this error.
    FailedToLaunch(String),
}

/// What a hook's end means for the build of app `id`: success, or a failure
/// of an optional hook, lets the build go on; any other failure, or a
/// missing script (`script_exists` false) of a required hook, ends it with
/// a message naming the app and the script.
pub fn hook_verdict(id: &str, hook: &PostPatchHook, script_exists: bool, outcome: &HookOutcome) -> (r: Result<(), String>)
    ensures
        !script_exists ==> (hook.optional <==> r is Ok),
        !script_exists && !hook.optional ==> (r matches Err(m) && m@ == id@ + ": declared hook script not found: "@ + hook.script@),
        script_exists ==> match outcome {
            HookOutcome::Succeeded => r is Ok,
            HookOutcome::ExitedWith(st) => if hook.optional {
                r is Ok
            } else {
                r matches Err(m) && m@ == id@ + ": hook "@ + hook.script@ + " exited with "@ + st@
            },
            HookOutcome::FailedToLaunch(e) => if hook.optional {
                r is Ok
            } else {
                r matches Err(m) && m@ == id@ + ": hook "@ + hook.script@ + " failed to launch: "@ + e@
            },
        },
{
    if !script_exists {
        if hook.optional {
            return Ok(());
        }
        let mut m = string_from_str(id);
        push_str(&mut m, ": declared hook script not found: ");
        push_str(&mut m, hook.script.as_str());
        return Err(m);
    }
    match outcome {
        HookOutcome::Succeeded => Ok(()),
        HookOutcome::ExitedWith(st) => {
            if hook.optional {
                Ok(())
            } else {
                let mut m = string_from_str(id);
                push_str(&mut m, ": hook ");
                push_str(&mut m, hook.script.as_str());
                push_str(&mut m, " exited with ");
                push_str(&mut m, st.as_str());
                Err(m)
            }
        },
        HookOutcome::FailedToLaunch(e) => {
            if hook.optional {
                Ok(())
            } else {
                let mut m = string_from_str(id);
                push_str(&mut m, ": hook ");
                push_str(&mut m, hook.script.as_str());
                push_str(&mut m, " failed to launch: ");
                push_str(&mut m, e.as_str());
                Err(m)
            }
        },
    }
}

} // verus!
