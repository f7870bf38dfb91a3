//! Patch names and the rules that match them.

use vstd::prelude::*;
use crate::pattern::{compile_pattern, pattern_is_match, regex_compiles, regex_finds};
use crate::text::{
    char_is_alphanumeric, char_lower, chars_of, contains, contains_in, is_ascii_alnum, is_ws,
    lower, push_char, str_contains, str_eq, string_of, trim, trim_end, trim_range, trim_start,
    alphanumeric,
};

verus! {

/// A rule that selects patches by name.
#[derive(Debug, Clone)]
pub enum MatchRule {
    Equals { equals: String },
    Contains { contains: String },
    Regex { regex: String },
}

/// `char::is_alphanumeric`, exact on ASCII.
pub open spec fn is_alnum(c: char) -> bool {
    if (c as u32) < 128 {
        is_ascii_alnum(c)
    } else {
        alphanumeric(c)
    }
}

/// Every run of non-alphanumeric characters becomes one space and letters
/// are lower-cased (ASCII).
pub open spec fn collapse(s: Seq<char>) -> Seq<char>
    decreases s.len(),
{
    if s.len() == 0 {
        seq![]
    } else {
        let p = s.drop_last();
        let c = s.last();
        if is_alnum(c) {
            collapse(p).push(lower(c))
        } else if p.len() > 0 && !is_alnum(p.last()) {
            collapse(p)
        } else {
            collapse(p).push(' ')
        }
    }
}

/// The normal form of a patch name.
pub open spec fn normalized(s: Seq<char>) -> Seq<char> {
    trim(collapse(s))
}

/// Lower-cases a patch name and turns each run of other characters into
/// one space, trimmed at both ends.
pub fn normalize(name: &str) -> (r: String)
    ensures
        r@ == normalized(name@),
{
    let v = chars_of(name);
    let mut out: Vec<char> = Vec::new();
    let mut last_was_space = false;
    let mut i: usize = 0;
    while i < v.len()
        invariant
            i <= v@.len(),
            v@ == name@,
            out@ == collapse(v@.take(i as int)),
            last_was_space == (i > 0 && !is_alnum(v@[i - 1])),
        decreases v.len() - i,
    {
        let c = v[i];
        proof {
            assert(v@.take(i + 1).drop_last() =~= v@.take(i as int));
            assert(v@.take(i + 1).last() == c);
        }
        if char_is_alphanumeric(c) {
            out.push(char_lower(c));
            last_was_space = false;
        } else if !last_was_space {
            out.push(' ');
            last_was_space = true;
        }
        i += 1;
    }
    assert(v@.take(v@.len() as int) =~= v@);
    let (a, b) = trim_range(out.as_slice(), 0, out.len());
    assert(out@.subrange(0, out@.len() as int) =~= out@);
    string_of(out.as_slice(), a, b)
}

// ---------------------------------------------------------------------
// Normalization is idempotent
// ---------------------------------------------------------------------

/// The shape of a collapsed name: spaces never adjacent, every other
/// character alphanumeric and already lower-cased.
pub open spec fn clean(z: Seq<char>) -> bool {
    &&& forall|i: int| 0 <= i < z.len() ==> (#[trigger] z[i] == ' ' || (is_alnum(z[i]) && lower(z[i]) == z[i]))
    &&& forall|i: int| 0 <= i < z.len() - 1 ==> !(#[trigger] z[i] == ' ' && z[i + 1] == ' ')
}

proof fn lemma_lower_alnum(c: char)
    requires
        is_alnum(c),
    ensures
        is_alnum(lower(c)),
        lower(lower(c)) == lower(c),
{
}

proof fn lemma_collapse_clean(s: Seq<char>)
    ensures
        clean(collapse(s)),
        collapse(s).len() > 0 ==> (collapse(s).last() == ' ' <==> !is_alnum(s.last())),
        s.len() > 0 ==> collapse(s).len() > 0,
    decreases s.len(),
{
    if s.len() > 0 {
        let p = s.drop_last();
        lemma_collapse_clean(p);
        if is_alnum(s.last()) {
            lemma_lower_alnum(s.last());
        }
    }
}

proof fn lemma_collapse_fixed(z: Seq<char>)
    requires
        clean(z),
    ensures
        collapse(z) == z,
    decreases z.len(),
{
    if z.len() > 0 {
        let p = z.drop_last();
        assert(clean(p));
        lemma_collapse_fixed(p);
        let c = z.last();
        if c == ' ' {
            assert(!is_alnum(' '));
            if p.len() > 0 {
                assert(p.last() != ' ');
                assert(is_alnum(p.last()));
            }
            assert(collapse(z) =~= p.push(' '));
        } else {
            assert(collapse(z) =~= p.push(lower(c)));
        }
        assert(p.push(c) =~= z);
    }
}

proof fn lemma_trim_start_skip_exists(s: Seq<char>) -> (k: int)
    ensures
        0 <= k <= s.len(),
        trim_start(s) == s.skip(k),
    decreases s.len(),
{
    if s.len() > 0 && is_ws(s[0]) {
        let k = lemma_trim_start_skip_exists(s.drop_first());
        assert(s.drop_first().skip(k) =~= s.skip(k + 1));
        k + 1
    } else {
        assert(s.skip(0) =~= s);
        0
    }
}

proof fn lemma_trim_end_take_exists(s: Seq<char>) -> (k: int)
    ensures
        0 <= k <= s.len(),
        trim_end(s) == s.take(k),
    decreases s.len(),
{
    if s.len() > 0 && is_ws(s.last()) {
        let k = lemma_trim_end_take_exists(s.drop_last());
        assert(s.drop_last().take(k) =~= s.take(k));
        k
    } else {
        assert(s.take(s.len() as int) =~= s);
        s.len() as int
    }
}

proof fn lemma_trim_start_idem(s: Seq<char>)
    ensures
        trim_start(trim_start(s)) == trim_start(s),
    decreases s.len(),
{
    if s.len() > 0 && is_ws(s[0]) {
        lemma_trim_start_idem(s.drop_first());
    }
}

proof fn lemma_trim_end_idem(s: Seq<char>)
    ensures
        trim_end(trim_end(s)) == trim_end(s),
    decreases s.len(),
{
    if s.len() > 0 && is_ws(s.last()) {
        lemma_trim_end_idem(s.drop_last());
    }
}

proof fn lemma_trim_end_keeps_start(s: Seq<char>)
    requires
        s.len() == 0 || !is_ws(s[0]),
    ensures
        trim_end(s).len() == 0 || !is_ws(trim_end(s)[0]),
        trim_start(trim_end(s)) == trim_end(s),
    decreases s.len(),
{
    if s.len() > 0 && is_ws(s.last()) {
        if s.len() > 1 {
            lemma_trim_end_keeps_start(s.drop_last());
        }
    }
}

proof fn lemma_trim_start_head(s: Seq<char>)
    ensures
        trim_start(s).len() == 0 || !is_ws(trim_start(s)[0]),
    decreases s.len(),
{
    if s.len() > 0 && is_ws(s[0]) {
        lemma_trim_start_head(s.drop_first());
    }
}

proof fn lemma_trim_idem(s: Seq<char>)
    ensures
        trim(trim(s)) == trim(s),
{
    let a = trim_start(s);
    lemma_trim_start_head(s);
    lemma_trim_end_keeps_start(a);
    lemma_trim_end_idem(a);
}

proof fn lemma_clean_subrange(z: Seq<char>, a: int, b: int)
    requires
        clean(z),
        0 <= a <= b <= z.len(),
    ensures
        clean(z.subrange(a, b)),
{
    let w = z.subrange(a, b);
    assert forall|i: int| 0 <= i < w.len() - 1 implies !(#[trigger] w[i] == ' ' && w[i + 1] == ' ') by {
        assert(w[i] == z[a + i] && w[i + 1] == z[a + i + 1]);
    }
}

/// Normalizing a normalized name changes nothing.
pub proof fn lemma_normalize_idempotent(s: Seq<char>)
    ensures
        normalized(normalized(s)) == normalized(s),
{
    let z = collapse(s);
    lemma_collapse_clean(s);
    let a = lemma_trim_start_skip_exists(z);
    let t = trim_start(z);
    let b = lemma_trim_end_take_exists(t);
    let y = trim(z);
    assert(y == z.subrange(a, a + b)) by {
        assert(t.take(b) =~= z.subrange(a, a + b));
    }
    lemma_clean_subrange(z, a, a + b);
    lemma_collapse_fixed(y);
    lemma_trim_idem(z);
}

// ---------------------------------------------------------------------
// Rules
// ---------------------------------------------------------------------

/// Whether `rule` selects the patch called `name`: `Equals` and `Contains`
/// compare normalized names; `Regex` searches the raw and the normalized
/// name, and an invalid pattern selects nothing.
pub open spec fn rule_matches(rule: MatchRule, name: Seq<char>) -> bool {
    match rule {
        MatchRule::Equals { equals } => normalized(name) == normalized(equals@),
        MatchRule::Contains { contains: val } => contains(normalized(name), normalized(val@)),
        MatchRule::Regex { regex } => regex_compiles(regex@) && (regex_finds(regex@, name)
            || regex_finds(regex@, normalized(name))),
    }
}

/// A regex rule with a valid pattern selects a patch when the pattern is
/// found in the patch's name or in its normalized name; an invalid pattern
/// selects nothing.
pub proof fn lemma_regex_rule_selects(regex: String, name: Seq<char>)
    ensures
        regex_compiles(regex@) && regex_finds(regex@, normalized(name)) ==> rule_matches(MatchRule::Regex { regex }, name),
        regex_compiles(regex@) && regex_finds(regex@, name) ==> rule_matches(MatchRule::Regex { regex }, name),
        !regex_compiles(regex@) ==> !rule_matches(MatchRule::Regex { regex }, name),
{
}

/// A rule that selects a patch's normalized name selects the patch itself:
/// how a name is spelled (case, separators) does not hide it from a rule.
pub proof fn lemma_rule_sees_through_spelling(rule: MatchRule, name: Seq<char>)
    ensures
        rule_matches(rule, normalized(name)) ==> rule_matches(rule, name),
{
    lemma_normalize_idempotent(name);
}

/// Whether `rule` selects the patch called `patch_name`.
pub fn matches(rule: &MatchRule, patch_name: &str) -> (r: bool)
    ensures
        r == rule_matches(*rule, patch_name@),
{
    let norm_name = normalize(patch_name);
    match rule {
        MatchRule::Equals { equals: val } => {
            let nv = normalize(val.as_str());
            str_eq(norm_name.as_str(), nv.as_str())
        },
        MatchRule::Contains { contains: val } => {
            let nv = normalize(val.as_str());
            str_contains(norm_name.as_str(), nv.as_str())
        },
        MatchRule::Regex { regex: pattern } => {
            match compile_pattern(pattern.as_str()) {
                Some(re) => pattern_is_match(&re, patch_name) || pattern_is_match(
                    &re,
                    norm_name.as_str(),
                ),
                None => false,
            }
        },
    }
}

} // verus!
