//! Magisk modules: what a bundle holds and how a built one is checked.

pub mod bundle;
pub mod single;

use vstd::prelude::*;
use crate::pattern::{compile_pattern, pattern_is_match, regex_compiles, regex_finds, CompiledPattern};
use crate::text::{
    chars_of, contains, lines, line_ranges, parse_u64, pieces, ranges_within, starts_with, str_contains,
    str_ends_with, str_eq, str_parse_u64, str_starts_with, str_trim, string_from_str, string_of, trim,
    ends_with,
};

verus! {

/// `Path::file_stem`: the file name without its last extension, if the path
/// has a file name.
pub uninterp spec fn file_stem_of(path: Seq<char>) -> Option<Seq<char>>;

/// `Path::file_stem`, converted to a string (lossily, as `to_str` then owned).
#[verifier::external_body]
pub(crate) fn path_file_stem(path: &str) -> (r: Option<String>)
    ensures
        match r {
            Some(s) => file_stem_of(path@) == Some(s@),
            None => file_stem_of(path@) is None,
        },
{
    std::path::Path::new(path).file_stem().and_then(|s| s.to_str()).map(|s| s.to_string())
}

/// `Path::file_name`: the last component of the path, if it names a file.
pub uninterp spec fn file_name_of(path: Seq<char>) -> Option<Seq<char>>;

/// `Path::file_name`, converted to a string.
#[verifier::external_body]
pub(crate) fn path_file_name(path: &str) -> (r: Option<String>)
    ensures
        match r {
            Some(s) => file_name_of(path@) == Some(s@),
            None => file_name_of(path@) is None,
        },
{
    std::path::Path::new(path).file_name().and_then(|s| s.to_str()).map(|s| s.to_string())
}

// ---------------------------------------------------------------------
// Checking a built module
// ---------------------------------------------------------------------

/// The pattern a module id must match.
pub open spec fn id_pattern() -> Seq<char> {
    "^[a-zA-Z][a-zA-Z0-9._-]+$"@
}

/// A `module.prop` line that sets a valid id.
pub open spec fn line_sets_valid_id(line: Seq<char>) -> bool {
    starts_with(line, "id="@) && regex_finds(id_pattern(), trim(line.skip(3)))
}

/// A `module.prop` line that sets a positive version code.
pub open spec fn line_sets_version_code(line: Seq<char>) -> bool {
    starts_with(line, "versionCode="@) && match parse_u64(trim(line.skip(12))) {
        Some(v) => v > 0,
        None => false,
    }
}

/// A `module.prop` that a module manager accepts: a valid id, a positive
/// version code, a name and a version.
pub open spec fn module_prop_valid(content: Seq<char>) -> bool {
    &&& exists|k: int| 0 <= k < lines(content).len() && line_sets_valid_id(#[trigger] lines(content)[k])
    &&& exists|k: int| 0 <= k < lines(content).len() && line_sets_version_code(#[trigger] lines(content)[k])
    &&& contains(content, "name="@)
    &&& contains(content, "version="@)
}

fn prop_valid(re: &CompiledPattern, content: &str) -> (b: bool)
    requires
        re.source() == id_pattern(),
    ensures
        b == module_prop_valid(content@),
{
    let v = chars_of(content);
    let rs = line_ranges(v.as_slice(), 0, v.len());
    assert(v@.subrange(0, v@.len() as int) =~= v@);
    let ghost ls = lines(content@);
    let mut id_ok = false;
    let mut code_ok = false;
    let mut i: usize = 0;
    while i < rs.len()
        invariant
            i <= rs@.len(),
            v@ == content@,
            re.source() == id_pattern(),
            ls == lines(content@),
            pieces(v@, rs@) == ls,
            ranges_within(rs@, 0, v@.len() as int),
            id_ok == exists|k: int| 0 <= k < i && line_sets_valid_id(#[trigger] ls[k]),
            code_ok == exists|k: int| 0 <= k < i && line_sets_version_code(#[trigger] ls[k]),
        decreases rs.len() - i,
    {
        let (a, b) = rs[i];
        proof {
            assert(0 <= rs@[i as int].0 <= rs@[i as int].1 <= v@.len());
            assert(ls[i as int] == v@.subrange(a as int, b as int));
        }
        let line = string_of(v.as_slice(), a, b);
        let mut this_id = false;
        if str_starts_with(line.as_str(), "id=") {
            proof {
                reveal_strlit("id=");
            }
            let rest = string_of(v.as_slice(), a + 3, b);
            assert(rest@ =~= line@.skip(3));
            let t = str_trim(rest.as_str());
            this_id = pattern_is_match(re, t.as_str());
        }
        let mut this_code = false;
        if str_starts_with(line.as_str(), "versionCode=") {
            proof {
                reveal_strlit("versionCode=");
            }
            let rest = string_of(v.as_slice(), a + 12, b);
            assert(rest@ =~= line@.skip(12));
            let t = str_trim(rest.as_str());
            this_code = match str_parse_u64(t.as_str()) {
                Some(n) => n > 0,
                None => false,
            };
        }
        assert(this_id == line_sets_valid_id(ls[i as int]));
        assert(this_code == line_sets_version_code(ls[i as int]));
        id_ok = id_ok || this_id;
        code_ok = code_ok || this_code;
        i += 1;
    }
    id_ok && code_ok && str_contains(content, "name=") && str_contains(content, "version=")
}

/// One entry of a built module archive: its name, uncompressed size, and,
/// for the entries whose contents are checked, its text.
pub struct ArchiveEntry {
    pub name: String,
    pub size: u64,
    pub text: String,
}

/// Why a built module is refused.
#[derive(Debug, Clone, Copy, PartialEq, Eq, Structural)]
pub enum BundleCheckError {
    PatternRejected,
    MissingUpdateBinary,
    MissingMagiskMarker,
    InvalidModuleProp,
    MissingCustomizeScript,
    MissingServiceScript,
    MissingUtilsScript,
    NoApks,
}

impl BundleCheckError {
    /// The message shown for the error.
    pub fn message(&self) -> (r: String)
        ensures
            r@ == bundle_check_message(*self),
    {
        match self {
            BundleCheckError::PatternRejected => string_from_str("Verification failed: the module id pattern does not compile"),
            BundleCheckError::MissingUpdateBinary => string_from_str("Verification failed: missing or empty update-binary"),
            BundleCheckError::MissingMagiskMarker => string_from_str("Verification failed: updater-script does not contain #MAGISK"),
            BundleCheckError::InvalidModuleProp => string_from_str("Verification failed: missing or invalid module.prop"),
            BundleCheckError::MissingCustomizeScript => string_from_str("Verification failed: missing or empty customize.sh"),
            BundleCheckError::MissingServiceScript => string_from_str("Verification failed: missing or empty service.sh"),
            BundleCheckError::MissingUtilsScript => string_from_str("Verification failed: missing or empty utils.sh"),
            BundleCheckError::NoApks => string_from_str("Verification failed: no valid APKs found under apks/"),
        }
    }
}

/// The message of each refusal.
pub open spec fn bundle_check_message(e: BundleCheckError) -> Seq<char> {
    match e {
        BundleCheckError::PatternRejected => "Verification failed: the module id pattern does not compile"@,
        BundleCheckError::MissingUpdateBinary => "Verification failed: missing or empty update-binary"@,
        BundleCheckError::MissingMagiskMarker => "Verification failed: updater-script does not contain #MAGISK"@,
        BundleCheckError::InvalidModuleProp => "Verification failed: missing or invalid module.prop"@,
        BundleCheckError::MissingCustomizeScript => "Verification failed: missing or empty customize.sh"@,
        BundleCheckError::MissingServiceScript => "Verification failed: missing or empty service.sh"@,
        BundleCheckError::MissingUtilsScript => "Verification failed: missing or empty utils.sh"@,
        BundleCheckError::NoApks => "Verification failed: no valid APKs found under apks/"@,
    }
}

/// Some entry `name` is not empty.
pub open spec fn has_nonempty(es: Seq<ArchiveEntry>, name: Seq<char>) -> bool {
    exists|i: int| 0 <= i < es.len() && (#[trigger] es[i]).name@ == name && es[i].size > 0
}

/// Some entry `name` has a text that passes `ok`.
pub open spec fn has_text(es: Seq<ArchiveEntry>, name: Seq<char>, ok: spec_fn(Seq<char>) -> bool) -> bool {
    exists|i: int| 0 <= i < es.len() && (#[trigger] es[i]).name@ == name && ok(es[i].text@)
}

/// An entry that holds a bundled APK: under `apks/`, named `.apk`, and
/// larger than a stub.
pub open spec fn holds_apk(e: ArchiveEntry) -> bool {
    starts_with(e.name@, "apks/"@) && ends_with(e.name@, ".apk"@) && e.size > 50
}

/// The number of bundled APKs.
pub open spec fn apk_entry_count(es: Seq<ArchiveEntry>) -> nat {
    es.filter(|e: ArchiveEntry| holds_apk(e)).len()
}

/// The verdict on a built module: the first missing piece, or the number
/// of bundled APKs.
pub open spec fn bundle_verdict(es: Seq<ArchiveEntry>) -> Result<nat, BundleCheckError> {
    if !regex_compiles(id_pattern()) {
        Err(BundleCheckError::PatternRejected)
    } else if !has_nonempty(es, "META-INF/com/google/android/update-binary"@) {
        Err(BundleCheckError::MissingUpdateBinary)
    } else if !has_text(es, "META-INF/com/google/android/updater-script"@, |t: Seq<char>| contains(t, "#MAGISK"@)) {
        Err(BundleCheckError::MissingMagiskMarker)
    } else if !has_text(es, "module.prop"@, |t: Seq<char>| module_prop_valid(t)) {
        Err(BundleCheckError::InvalidModuleProp)
    } else if !has_nonempty(es, "customize.sh"@) {
        Err(BundleCheckError::MissingCustomizeScript)
    } else if !has_nonempty(es, "service.sh"@) {
        Err(BundleCheckError::MissingServiceScript)
    } else if !has_nonempty(es, "utils.sh"@) {
        Err(BundleCheckError::MissingUtilsScript)
    } else if apk_entry_count(es) == 0 {
        Err(BundleCheckError::NoApks)
    } else {
        Ok(apk_entry_count(es))
    }
}

/// Checks the entries of a built module: update binary, Magisk updater
/// script, a valid `module.prop`, the install scripts, and at least one
/// bundled APK. Gives the number of bundled APKs.
pub fn verify_bundle(entries: &Vec<ArchiveEntry>) -> (r: Result<usize, BundleCheckError>)
    ensures
        match bundle_verdict(entries@) {
            Ok(n) => r == Ok::<usize, BundleCheckError>(n as usize),
            Err(e) => r == Err::<usize, BundleCheckError>(e),
        },
{
    let re = match compile_pattern("^[a-zA-Z][a-zA-Z0-9._-]+$") {
        Some(re) => re,
        None => return Err(BundleCheckError::PatternRejected),
    };
    let ghost es = entries@;
    let ghost magisk = |t: Seq<char>| contains(t, "#MAGISK"@);
    let ghost prop_ok = |t: Seq<char>| module_prop_valid(t);
    let ghost apk_pred = |e: ArchiveEntry| holds_apk(e);
    let mut update_binary = false;
    let mut updater_script = false;
    let mut module_prop = false;
    let mut customize = false;
    let mut service = false;
    let mut utils = false;
    let mut apks: usize = 0;
    let mut i: usize = 0;
    proof {
        reveal(Seq::filter);
        assert(es.take(0).filter(apk_pred) =~= Seq::<ArchiveEntry>::empty());
    }
    while i < entries.len()
        invariant
            i <= es.len(),
            es == entries@,
            re.source() == id_pattern(),
            magisk == (|t: Seq<char>| contains(t, "#MAGISK"@)),
            prop_ok == (|t: Seq<char>| module_prop_valid(t)),
            apk_pred == (|e: ArchiveEntry| holds_apk(e)),
            update_binary == has_nonempty(es.take(i as int), "META-INF/com/google/android/update-binary"@),
            updater_script == has_text(es.take(i as int), "META-INF/com/google/android/updater-script"@, magisk),
            module_prop == has_text(es.take(i as int), "module.prop"@, prop_ok),
            customize == has_nonempty(es.take(i as int), "customize.sh"@),
            service == has_nonempty(es.take(i as int), "service.sh"@),
            utils == has_nonempty(es.take(i as int), "utils.sh"@),
            apks == es.take(i as int).filter(apk_pred).len(),
            apks <= i,
        decreases entries.len() - i,
    {
        let e = &entries[i];
        let ghost pre = es.take(i as int);
        let ghost post = es.take(i + 1);
        proof {
            assert(post =~= pre.push(es[i as int]));
            pre.lemma_filter_push(es[i as int], apk_pred);
            assert forall|k: int| 0 <= k < pre.len() implies post[k] == pre[k] by {}
            assert(post[i as int] == es[i as int]);
        }
        let name = e.name.as_str();
        let big = e.size > 0;
        let ub = big && str_eq(name, "META-INF/com/google/android/update-binary");
        let us = str_eq(name, "META-INF/com/google/android/updater-script") && str_contains(e.text.as_str(), "#MAGISK");
        let mp = str_eq(name, "module.prop") && prop_valid(&re, e.text.as_str());
        let cs = big && str_eq(name, "customize.sh");
        let ss = big && str_eq(name, "service.sh");
        let ut = big && str_eq(name, "utils.sh");
        let ap = str_starts_with(name, "apks/") && str_ends_with(name, ".apk") && e.size > 50;
        proof {
            assert(ub || update_binary <==> has_nonempty(post, "META-INF/com/google/android/update-binary"@));
            assert(us || updater_script <==> has_text(post, "META-INF/com/google/android/updater-script"@, magisk));
            assert(mp || module_prop <==> has_text(post, "module.prop"@, prop_ok));
            assert(cs || customize <==> has_nonempty(post, "customize.sh"@));
            assert(ss || service <==> has_nonempty(post, "service.sh"@));
            assert(ut || utils <==> has_nonempty(post, "utils.sh"@));
            assert(ap == apk_pred(es[i as int]));
        }
        update_binary = update_binary || ub;
        updater_script = updater_script || us;
        module_prop = module_prop || mp;
        customize = customize || cs;
        service = service || ss;
        utils = utils || ut;
        if ap {
            apks = apks + 1;
        }
        i += 1;
    }
    assert(es.take(es.len() as int) =~= es);
    if !update_binary {
        return Err(BundleCheckError::MissingUpdateBinary);
    }
    if !updater_script {
        return Err(BundleCheckError::MissingMagiskMarker);
    }
    if !module_prop {
        return Err(BundleCheckError::InvalidModuleProp);
    }
    if !customize {
        return Err(BundleCheckError::MissingCustomizeScript);
    }
    if !service {
        return Err(BundleCheckError::MissingServiceScript);
    }
    if !utils {
        return Err(BundleCheckError::MissingUtilsScript);
    }
    if apks == 0 {
        return Err(BundleCheckError::NoApks);
    }
    Ok(apks)
}

} // verus!
