//! Which native libraries an APK keeps for one target ABI.

use vstd::prelude::*;
use crate::text::{chars_of, hit, lemma_first_sep, pieces, split, split_ranges, starts_with, starts_with_in, string_of, str_eq};
use crate::utils::zip::EntryAction;

verus! {

/// The Android ABIs whose libraries can be stripped.
pub open spec fn android_abis() -> Seq<Seq<char>> {
    seq!["arm64-v8a"@, "armeabi-v7a"@, "x86"@, "x86_64"@, "armeabi"@, "mips"@, "mips64"@]
}

/// The Android ABIs, in their usual order.
pub fn android_abi_names() -> (r: Vec<String>)
    ensures
        crate::text::str_views(r@) == android_abis(),
{
    let mut v: Vec<String> = Vec::new();
    v.push(crate::text::string_from_str("arm64-v8a"));
    v.push(crate::text::string_from_str("armeabi-v7a"));
    v.push(crate::text::string_from_str("x86"));
    v.push(crate::text::string_from_str("x86_64"));
    v.push(crate::text::string_from_str("armeabi"));
    v.push(crate::text::string_from_str("mips"));
    v.push(crate::text::string_from_str("mips64"));
    assert(crate::text::str_views(v@) =~= android_abis());
    v
}

/// An entry is a native library of a known ABI other than the target.
pub open spec fn strips(name: Seq<char>, target: Seq<char>) -> bool {
    let parts = split(name, seq!['/'], false);
    starts_with(name, "lib/"@) && parts.len() >= 2 && android_abis().contains(parts[1]) && parts[1] != target
}

/// The archive path `lib/<abi>/<rest>` of a native library.
pub open spec fn lib_path(abi: Seq<char>, rest: Seq<char>) -> Seq<char> {
    "lib/"@ + abi + "/"@ + rest
}

/// The second `/`-separated piece of `lib/<abi>/<rest>` is the ABI.
proof fn lemma_lib_path_abi(abi: Seq<char>, rest: Seq<char>)
    requires
        !abi.contains('/'),
    ensures
        starts_with(lib_path(abi, rest), "lib/"@),
        split(lib_path(abi, rest), seq!['/'], false).len() >= 2,
        split(lib_path(abi, rest), seq!['/'], false)[1] == abi,
{
    reveal_strlit("lib/");
    reveal_strlit("/");
    let seps = seq!['/'];
    assert(seps[0] == '/');
    let name = lib_path(abi, rest);
    assert(name.subrange(0, 4) =~= "lib/"@);
    assert(name[0] == 'l' && name[1] == 'i' && name[2] == 'b' && name[3] == '/');
    assert forall|k: int| 0 <= k < 3 implies !hit(name, seps, false, k) by {
        assert(!seps.contains(name[k])) by {
            if seps.contains(name[k]) {
                let j = choose|j: int| 0 <= j < seps.len() && seps[j] == name[k];
                assert(j == 0);
            }
        }
    }
    assert(seps.contains(name[3]));
    assert(hit(name, seps, false, 3));
    lemma_first_sep(name, seps, false, 3);
    let tail = name.skip(4);
    assert(tail =~= abi + "/"@ + rest);
    let n = abi.len() as int;
    assert(tail[n] == '/');
    assert forall|k: int| 0 <= k < n implies !hit(tail, seps, false, k) by {
        assert(tail[k] == abi[k]);
        assert(abi.contains(abi[k]));
        assert(!seps.contains(tail[k])) by {
            if seps.contains(tail[k]) {
                let j = choose|j: int| 0 <= j < seps.len() && seps[j] == tail[k];
                assert(j == 0);
            }
        }
    }
    assert(seps.contains(tail[n]));
    assert(hit(tail, seps, false, n));
    lemma_first_sep(tail, seps, false, n);
    assert(split(name, seps, false) == seq![name.take(3)] + split(tail, seps, false));
    assert(split(tail, seps, false) == seq![tail.take(n)] + split(tail.skip(n + 1), seps, false));
    assert(tail.take(n) =~= abi);
}

/// Stripping for a target ABI drops the library `lib/<abi>/<rest>` exactly
/// when `abi` is a known Android ABI other than the target: the target's
/// own libraries always stay.
pub proof fn lemma_strip_keeps_only_target(abi: Seq<char>, rest: Seq<char>, target: Seq<char>)
    requires
        !abi.contains('/'),
    ensures
        strips(lib_path(abi, rest), target) <==> (android_abis().contains(abi) && abi != target),
{
    lemma_lib_path_abi(abi, rest);
}

/// Whether the archive entry `name` is a library for another ABI.
pub fn should_strip(name: &str, target_arch: &str) -> (r: bool)
    ensures
        r == strips(name@, target_arch@),
{
    let v = chars_of(name);
    let lib = chars_of("lib/");
    assert(v@.subrange(0, v@.len() as int) =~= v@);
    if !starts_with_in(v.as_slice(), 0, v.len(), lib.as_slice()) {
        return false;
    }
    let slash: [char; 1] = ['/'];
    assert(slash@ =~= seq!['/']);
    let rs = split_ranges(v.as_slice(), 0, v.len(), slash.as_slice(), false);
    if rs.len() < 2 {
        return false;
    }
    let (a, b) = rs[1];
    proof {
        assert(pieces(v@, rs@)[1] == v@.subrange(a as int, b as int));
    }
    let abi = string_of(v.as_slice(), a, b);
    let abis = android_abi_names();
    let known = crate::text::vec_contains_str(&abis, abi.as_str());
    known && !str_eq(abi.as_str(), target_arch)
}

/// What the arch-stripping rewrite does with an entry.
pub fn strip_action(name: &str, target_arch: &str) -> (r: EntryAction)
    ensures
        r is Drop <==> strips(name@, target_arch@),
        r is Drop || r is Keep,
{
    if should_strip(name, target_arch) {
        EntryAction::Drop
    } else {
        EntryAction::Keep
    }
}

} // verus!
