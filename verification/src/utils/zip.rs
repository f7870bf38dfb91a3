//! What a rewrite of an archive does with each entry.

use vstd::prelude::*;

verus! {

/// The compression methods of archive entries.
#[verifier::external_type_specification]
#[verifier::external_body]
pub struct ExCompressionMethod(::zip::CompressionMethod);

/// What happens to one entry of an archive that is rewritten.
pub enum EntryAction {
    Keep,
    Drop,
    Recompress(::zip::CompressionMethod),
}

/// Whether the entry is written again with its own compression: kept
/// entries are, except `resources.arsc`, which is always stored.
pub fn keeps_compression(name: &str, action: &EntryAction) -> (r: bool)
    ensures
        r == (action is Keep && name@ != "resources.arsc"@),
{
    match action {
        EntryAction::Keep => !crate::text::str_eq(name, "resources.arsc"),
        _ => false,
    }
}

} // verus!
