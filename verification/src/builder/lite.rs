//! Which entries the lite optimisation removes from an APK.

use vstd::prelude::*;
use crate::text::{contains, ends_with, starts_with, str_contains, str_ends_with, str_starts_with};
use crate::utils::zip::EntryAction;

verus! {

/// A stale signature file or build metadata.
pub open spec fn drops(name: Seq<char>) -> bool {
    let stale_sig = starts_with(name, "META-INF/"@) && (ends_with(name, ".SF"@) || ends_with(name, ".RSA"@)
        || ends_with(name, ".DSA"@) || ends_with(name, ".EC"@));
    let metadata = ends_with(name, ".properties"@) || starts_with(name, "assets/dexopt/"@) || contains(
        name,
        "kotlin-tooling-metadata.json"@,
    );
    stale_sig || metadata
}

/// Whether the lite optimisation removes the archive entry `name`.
pub fn should_drop(name: &str) -> (r: bool)
    ensures
        r == drops(name@),
{
    let stale_sig = str_starts_with(name, "META-INF/") && (str_ends_with(name, ".SF")
        || str_ends_with(name, ".RSA") || str_ends_with(name, ".DSA") || str_ends_with(name, ".EC"));
    let metadata = str_ends_with(name, ".properties") || str_starts_with(name, "assets/dexopt/")
        || str_contains(name, "kotlin-tooling-metadata.json");
    stale_sig || metadata
}

/// What the lite rewrite does with an entry.
pub fn lite_action(name: &str) -> (r: EntryAction)
    ensures
        r is Drop <==> drops(name@),
        r is Drop || r is Keep,
{
    if should_drop(name) {
        EntryAction::Drop
    } else {
        EntryAction::Keep
    }
}

} // verus!
