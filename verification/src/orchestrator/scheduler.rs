//! The steps of one app's build, decided before any of them runs.

use vstd::prelude::*;
use crate::text::{push_str, str_eq, string_from_str};

verus! {

/// What a pipeline run built and what failed, with the error of each failure.
pub struct BuildSummary {
    pub built: Vec<String>,
    pub failed: Vec<(String, String)>,
}

/// The mode an app is built in: the one asked for on the command line,
/// else the app's own (`patch` builds as `full`), else `full`.
pub open spec fn effective_mode(cli: Option<Seq<char>>, app_mode: Seq<char>) -> Seq<char> {
    match cli {
        Some(m) if m.len() > 0 => m,
        _ => if app_mode.len() > 0 {
            if app_mode == "patch"@ {
                "full"@
            } else {
                app_mode
            }
        } else {
            "full"@
        },
    }
}

/// The mode an app is built in.
pub fn build_mode(cli_mode: Option<&str>, app_mode: &str) -> (r: String)
    ensures
        r@ == effective_mode(crate::builder::opt_str(cli_mode), app_mode@),
{
    if let Some(m) = cli_mode {
        if m.unicode_len() > 0 {
            return string_from_str(m);
        }
    }
    if app_mode.unicode_len() > 0 {
        if str_eq(app_mode, "patch") {
            string_from_str("full")
        } else {
            string_from_str(app_mode)
        }
    } else {
        string_from_str("full")
    }
}

/// The steps of one app's build once its APK is fetched.
pub struct BuildSteps {
    /// Where the unpatched APK is copied, for an app that is not patched.
    pub copy_to: Option<String>,
    /// Where the APK stripped to one architecture is written, if it is.
    pub arch_work_apk: Option<String>,
    /// The patched variants, root or not, in build order.
    pub variants: Vec<bool>,
    /// Whether only the first variant's failure fails the build.
    pub later_variants_optional: bool,
    /// Whether the patched APK is then slimmed down.
    pub lite: bool,
}

/// The app is installed as downloaded rather than patched.
pub open spec fn copies_unpatched(mode: Seq<char>, patch_source: Seq<char>) -> bool {
    mode == "install"@ || patch_source == "none"@ || patch_source.len() == 0
}

/// The variants built in `mode`: non-root then root for `both`; root for
/// `module` and `root`; otherwise non-root.
pub open spec fn mode_variants(mode: Seq<char>) -> Seq<bool> {
    if mode == "both"@ {
        seq![false, true]
    } else {
        seq![mode == "module"@ || mode == "root"@]
    }
}

/// The steps of building app `id` in `mode` for `arch`: an unpatched app is
/// copied to `<output>/<id>.apk`; otherwise the APK is first stripped to
/// `<temp>/<id>-<arch>-work.apk` unless every architecture is kept, then
/// the mode's variants are patched, and `lite` builds are slimmed down.
pub fn build_steps(temp_dir: &str, output_dir: &str, id: &str, mode: &str, patch_source: &str, arch: &str) -> (r: BuildSteps)
    ensures
        copies_unpatched(mode@, patch_source@) ==> {
            &&& r.copy_to matches Some(p) && p@ == output_dir@ + "/"@ + id@ + ".apk"@
            &&& r.arch_work_apk is None
            &&& r.variants@.len() == 0
            &&& !r.lite
        },
        !copies_unpatched(mode@, patch_source@) ==> {
            &&& r.copy_to is None
            &&& (arch@ == "all"@ ==> r.arch_work_apk is None)
            &&& (arch@ != "all"@ ==> (r.arch_work_apk matches Some(w) && w@ == temp_dir@ + "/"@ + id@ + "-"@ + arch@ + "-work.apk"@))
            &&& r.variants@ == mode_variants(mode@)
            &&& r.later_variants_optional == (mode@ == "both"@)
            &&& r.lite == (mode@ == "lite"@)
        },
{
    if str_eq(mode, "install") || str_eq(patch_source, "none") || patch_source.unicode_len() == 0 {
        let mut dest = string_from_str(output_dir);
        push_str(&mut dest, "/");
        push_str(&mut dest, id);
        push_str(&mut dest, ".apk");
        return BuildSteps { copy_to: Some(dest), arch_work_apk: None, variants: Vec::new(), later_variants_optional: false, lite: false };
    }
    let arch_work_apk = if str_eq(arch, "all") {
        None
    } else {
        let mut w = string_from_str(temp_dir);
        push_str(&mut w, "/");
        push_str(&mut w, id);
        push_str(&mut w, "-");
        push_str(&mut w, arch);
        push_str(&mut w, "-work.apk");
        Some(w)
    };
    let both = str_eq(mode, "both");
    let mut variants: Vec<bool> = Vec::new();
    if both {
        variants.push(false);
        variants.push(true);
    } else {
        variants.push(str_eq(mode, "module") || str_eq(mode, "root"));
    }
    assert(variants@ =~= mode_variants(mode@));
    BuildSteps { copy_to: None, arch_work_apk, variants, later_variants_optional: both, lite: str_eq(mode, "lite") }
}

} // verus!
