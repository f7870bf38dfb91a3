//! Regular expressions, through the `regex` crate.

use vstd::prelude::*;

verus! {

#[verifier::external_type_specification]
#[verifier::external_body]
pub struct ExRegex(regex::Regex);

/// Whether `regex::Regex::new` accepts `pattern` (syntax and default size limit).
pub uninterp spec fn regex_compiles(pattern: Seq<char>) -> bool;

/// Whether the regex compiled from `pattern` has a match anywhere in `text`
/// (`regex::Regex::is_match`).
pub uninterp spec fn regex_finds(pattern: Seq<char>, text: Seq<char>) -> bool;

/// A compiled regular expression together with the pattern it came from.
pub struct CompiledPattern {
    source: String,
    re: regex::Regex,
}

impl CompiledPattern {
    /// The pattern this regex was compiled from.
    pub closed spec fn source(&self) -> Seq<char> {
        self.source@
    }
}

/// `regex::Regex::new`: compiles `pattern`, or `None` where the crate
/// rejects it.
#[verifier::external_body]
pub(crate) fn compile_pattern(pattern: &str) -> (r: Option<CompiledPattern>)
    ensures
        r is Some <==> regex_compiles(pattern@),
        r matches Some(c) ==> c.source() == pattern@,
{
    regex::Regex::new(pattern).ok().map(|re| CompiledPattern { source: pattern.to_string(), re })
}

/// `regex::Regex::is_match`: whether the regex matches somewhere in `text`.
#[verifier::external_body]
pub(crate) fn pattern_is_match(c: &CompiledPattern, text: &str) -> (b: bool)
    ensures
        b == regex_finds(c.source(), text@),
{
    c.re.is_match(text)
}

/// The text of capture group 1 of each successive non-overlapping match of
/// the regex compiled from `pattern` in `text` (`regex::Regex::captures_iter`),
/// empty where the group did not take part in a match.
pub uninterp spec fn regex_group_ones(pattern: Seq<char>, text: Seq<char>) -> Seq<Seq<char>>;

/// `regex::Regex::captures_iter`, keeping capture group 1 of each match.
#[verifier::external_body]
pub(crate) fn pattern_group_ones(c: &CompiledPattern, text: &str) -> (r: Vec<String>)
    ensures
        crate::text::str_views(r@) == regex_group_ones(c.source(), text@),
{
    c.re.captures_iter(text).map(|cap| cap.get(1).map_or(String::new(), |m| m.as_str().to_string())).collect()
}

} // verus!
