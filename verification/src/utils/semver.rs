//! Version strings: their numeric components and their order.

use vstd::prelude::*;
use std::cmp::Ordering;
use crate::text::{str_trim, trim};
use crate::utils::version_order::{
    compare_sign, lemma_order_antisymmetric, lemma_order_transitive, max_len, order_from, order_parts, order_versions, part_at, version_numbers,
    version_parts,
};

verus! {

/// The `Ordering` that a comparison sign stands for.
pub open spec fn ordering_of(sign: int) -> Ordering {
    if sign < 0 {
        Ordering::Less
    } else if sign == 0 {
        Ordering::Equal
    } else {
        Ordering::Greater
    }
}

/// `app` lies within the optional bounds; a bound that is blank after
/// trimming does not constrain.
pub open spec fn compatible(app: Seq<char>, min: Option<Seq<char>>, max: Option<Seq<char>>) -> bool {
    let v = version_numbers(app);
    &&& match min {
        Some(m) => trim(m).len() == 0 || order_parts(v, version_numbers(trim(m))) != -1,
        None => true,
    }
    &&& match max {
        Some(m) => trim(m).len() == 0 || order_parts(v, version_numbers(trim(m))) != 1,
        None => true,
    }
}

/// A version above a given (non-blank) maximum is never compatible, and one
/// below a given (non-blank) minimum neither, whatever the other bound is;
/// a version within every given bound is compatible.
pub proof fn lemma_compatibility_bounds(app: Seq<char>, min: Option<Seq<char>>, max: Option<Seq<char>>)
    ensures
        (max matches Some(m) && trim(m).len() > 0 && order_parts(version_numbers(app), version_numbers(trim(m))) == 1)
            ==> !compatible(app, min, max),
        (min matches Some(m) && trim(m).len() > 0 && order_parts(version_numbers(app), version_numbers(trim(m))) == -1)
            ==> !compatible(app, min, max),
        (forall|m: Seq<char>| min == Some(m) && trim(m).len() > 0 ==> order_parts(version_numbers(app), version_numbers(trim(m))) >= 0)
            && (forall|m: Seq<char>| max == Some(m) && trim(m).len() > 0 ==> order_parts(version_numbers(app), version_numbers(trim(m))) <= 0)
            ==> compatible(app, min, max),
{
}

pub open spec fn opt_view(o: Option<&str>) -> Option<Seq<char>> {
    match o {
        Some(s) => Some(s@),
        None => None,
    }
}

/// Whether `app_version` lies within `min` and `max` (both inclusive).
pub fn check_compatibility(app_version: &str, min: Option<&str>, max: Option<&str>) -> (r: bool)
    ensures
        r == compatible(app_version@, opt_view(min), opt_view(max)),
{
    let app_v = version_parts(app_version);
    if let Some(min_v) = min {
        let min_clean = str_trim(min_v);
        if !min_clean.as_str().is_empty() {
            let min_parts = version_parts(min_clean.as_str());
            if compare_sign(app_v.as_slice(), min_parts.as_slice()) == -1 {
                return false;
            }
        }
    }
    if let Some(max_v) = max {
        let max_clean = str_trim(max_v);
        if !max_clean.as_str().is_empty() {
            let max_parts = version_parts(max_clean.as_str());
            if compare_sign(app_v.as_slice(), max_parts.as_slice()) == 1 {
                return false;
            }
        }
    }
    true
}

/// Numeric components of a version string: leading non-digits are skipped,
/// the rest is split at `.`, `-` and `_` up to the first empty piece, and
/// the leading digits of each piece are read.
pub fn parse_version_numbers(v: &str) -> (r: Vec<u64>)
    ensures
        r@ == version_numbers(v@),
{
    version_parts(v)
}

/// Compares component lists, a missing component counting as zero.
pub fn compare_version_parts(a: &[u64], b: &[u64]) -> (r: Ordering)
    ensures
        r == ordering_of(order_parts(a@, b@)),
{
    let s = compare_sign(a, b);
    if s < 0 {
        Ordering::Less
    } else if s == 0 {
        Ordering::Equal
    } else {
        Ordering::Greater
    }
}


/// The views of a sequence of string slices.
pub open spec fn views(vs: Seq<&str>) -> Seq<Seq<char>> {
    vs.map_values(|s: &str| s@)
}

/// `i` is the last position holding a greatest version of `vs`.
pub open spec fn is_last_max(vs: Seq<Seq<char>>, i: int) -> bool {
    &&& 0 <= i < vs.len()
    &&& forall|j: int| 0 <= j < vs.len() ==> order_versions(vs[j], vs[i]) <= 0
    &&& forall|j: int| i < j < vs.len() ==> order_versions(vs[j], vs[i]) < 0
}

/// The greatest version in `versions` (the last one among equals), if any.
pub fn max_version(versions: &[&str]) -> (r: Option<String>)
    ensures
        versions@.len() == 0 <==> r is None,
        r matches Some(m) ==> exists|i: int|
            is_last_max(views(versions@), i) && m@ == versions@[i]@,
{
    if versions.len() == 0 {
        return None;
    }
    let ghost vs = views(versions@);
    let mut best: usize = 0;
    let mut best_parts = version_parts(versions[0]);
    let mut k: usize = 1;
    proof {
        crate::utils::version_order::lemma_order_reflexive(best_parts@);
        assert(vs[0] == versions@[0]@);
    }
    while k < versions.len()
        invariant
            vs == views(versions@),
            1 <= k <= versions@.len(),
            best < k,
            best_parts@ == version_numbers(vs[best as int]),
            forall|j: int| 0 <= j < k ==> order_versions(vs[j], vs[best as int]) <= 0,
            forall|j: int| best < j < k ==> order_versions(vs[j], vs[best as int]) < 0,
        decreases versions.len() - k,
    {
        let parts = version_parts(versions[k]);
        let s = compare_sign(parts.as_slice(), best_parts.as_slice());
        proof {
            assert(vs[k as int] == versions@[k as int]@);
            lemma_order_antisymmetric(parts@, best_parts@);
        }
        if s >= 0 {
            proof {
                assert forall|j: int| 0 <= j < k + 1 implies order_versions(vs[j], vs[k as int])
                    <= 0 by {
                    if j < k {
                        lemma_order_transitive(
                            version_numbers(vs[j]),
                            version_numbers(vs[best as int]),
                            version_numbers(vs[k as int]),
                        );
                    } else {
                        crate::utils::version_order::lemma_order_reflexive(parts@);
                    }
                }
            }
            best = k;
            best_parts = parts;
        }
        k += 1;
    }
    let r = crate::text::string_from_str(versions[best]);
    proof {
        assert(vs[best as int] == versions@[best as int]@);
        assert(is_last_max(vs, best as int));
    }
    Some(r)
}

} // verus!
