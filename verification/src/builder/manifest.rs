//! Removing split requirements from a binary manifest.

use vstd::prelude::*;
use crate::utils::apk::{le16, le32, read_u16, read_u32};

verus! {

/// `w` occurs in `d` at `i`.
pub open spec fn window_at(d: Seq<u8>, i: int, w: Seq<u8>) -> bool {
    0 <= i && i + w.len() <= d.len() && d.subrange(i, i + w.len()) == w
}

/// The first position at or after `i` where `w` occurs.
pub open spec fn first_window(d: Seq<u8>, w: Seq<u8>, i: int) -> Option<int>
    decreases d.len() + 1 - i,
{
    if i < 0 || i + w.len() > d.len() {
        None
    } else if window_at(d, i, w) {
        Some(i)
    } else {
        first_window(d, w, i + 1)
    }
}

/// The resource id of `requiredSplitTypes`, little-endian.
pub open spec fn split_types_id() -> Seq<u8> {
    seq![0x4eu8, 0x06u8, 0x01u8, 0x01u8]
}

/// The header of the resource-id map chunk.
pub open spec fn resmap_marker() -> Seq<u8> {
    seq![0x80u8, 0x01u8, 0x08u8, 0x00u8]
}

/// The header of a start-element chunk.
pub open spec fn element_marker() -> Seq<u8> {
    seq![0x02u8, 0x01u8, 0x10u8, 0x00u8]
}

/// The positions `k < n` of the resource-id map at `base` that hold the ids
/// of `requiredSplitTypes` or `splitTypes`, in order.
pub open spec fn target_slots(d: Seq<u8>, base: int, n: int) -> Seq<int>
    decreases n,
{
    if n <= 0 {
        seq![]
    } else {
        let prev = target_slots(d, base, n - 1);
        let id = le32(d, base + 4 * (n - 1));
        if id == 0x0101064e || id == 0x0101064f {
            prev.push(n - 1)
        } else {
            prev
        }
    }
}

/// A 32-bit little-endian field read as `i32` and converted to `usize`.
pub open spec fn name_key(v: int) -> int {
    if v < 0x8000_0000 {
        v
    } else {
        v - 0x1_0000_0000 + usize::MAX + 1
    }
}

/// The name key of attribute `a` of the element chunk at `i`.
pub open spec fn attr_key(d: Seq<u8>, i: int, a: int) -> int {
    name_key(le32(d, i + 36 + 20 * a + 4))
}

/// Some attribute among the first `cnt` of the element at `i` is a target.
pub open spec fn has_target_attr(d: Seq<u8>, i: int, cnt: int, targets: Seq<int>) -> bool {
    exists|a: int| 0 <= a < cnt && targets.contains(#[trigger] attr_key(d, i, a))
}

/// A well-formed start-element chunk at `i` with at least one target attribute.
#[verifier::opaque]
pub open spec fn element_ok(d: Seq<u8>, i: int, targets: Seq<int>) -> bool {
    let cnt = le16(d, i + 28);
    let size = le32(d, i + 4);
    &&& window_at(d, i, element_marker())
    &&& i + 36 <= d.len()
    &&& 0 < cnt < 200
    &&& size == 36 + cnt * 20
    &&& i + size <= d.len()
    &&& has_target_attr(d, i, cnt, targets)
}

/// The first such element at or after `i`.
pub open spec fn first_element(d: Seq<u8>, targets: Seq<int>, i: int) -> Option<int>
    decreases d.len() - i,
{
    if i < 0 || i + 4 > d.len() {
        None
    } else if element_ok(d, i, targets) {
        Some(i)
    } else {
        first_element(d, targets, i + 1)
    }
}

/// The attributes `0..n` of the element at `i` that are not targets, and
/// how many were left out.
pub open spec fn kept_attrs(d: Seq<u8>, i: int, n: int, targets: Seq<int>) -> (Seq<u8>, int)
    decreases n,
{
    if n <= 0 {
        (seq![], 0)
    } else {
        let prev = kept_attrs(d, i, n - 1, targets);
        let off = i + 36 + 20 * (n - 1);
        if targets.contains(attr_key(d, i, n - 1)) {
            (prev.0, prev.1 + 1)
        } else {
            (prev.0 + d.subrange(off, off + 20), prev.1)
        }
    }
}

/// The little-endian bytes of a 32-bit number.
pub open spec fn le_bytes32(v: int) -> Seq<u8> {
    seq![(v % 256) as u8, ((v / 256) % 256) as u8, ((v / 65536) % 256) as u8, ((v / 16777216) % 256) as u8]
}

/// The little-endian bytes of a 16-bit number.
pub open spec fn le_bytes16(v: int) -> Seq<u8> {
    seq![(v % 256) as u8, ((v / 256) % 256) as u8]
}

/// `s` with the bytes from `at` on overwritten by `w`.
pub open spec fn overwrite(s: Seq<u8>, at: int, w: Seq<u8>) -> Seq<u8> {
    s.take(at) + w + s.skip(at + w.len())
}

/// Each position `p` in `from..to`, in turn: where `old` occurs at `p` in the
/// bytes as rewritten so far, `new` (of the same length) is written over it.
pub open spec fn replace_scan(s: Seq<u8>, old: Seq<u8>, new: Seq<u8>, from: int, to: int) -> Seq<u8>
    decreases to - from,
{
    if from >= to {
        s
    } else {
        let s2 = if window_at(s, from, old) {
            overwrite(s, from, new)
        } else {
            s
        };
        replace_scan(s2, old, new, from + 1, to)
    }
}

/// The bytes of an ASCII string.
pub open spec fn ascii_bytes(s: Seq<char>) -> Seq<u8> {
    s.map_values(|c: char| (c as u32) as u8)
}

/// The UTF-16LE bytes of an ASCII string.
pub open spec fn ascii_utf16(s: Seq<char>) -> Seq<u8> {
    Seq::new(2 * s.len(), |k: int| if k % 2 == 0 { (s[k / 2] as u32) as u8 } else { 0u8 })
}

/// The input the rewrite can read without running past the resource map:
/// where the manifest mentions `requiredSplitTypes`, the resource map's
/// size field and its entries lie inside the data.
pub open spec fn resmap_fits(d: Seq<u8>) -> bool {
    first_window(d, split_types_id(), 0) is Some ==> match first_window(d, resmap_marker(), 0) {
        Some(p) => p + 8 <= d.len() && 8 <= le32(d, p + 4) && p + le32(d, p + 4) <= d.len(),
        None => true,
    }
}

/// The element header with its size and attribute count set for `kept`
/// attributes.
pub open spec fn new_header(d: Seq<u8>, e: int, kept: int) -> Seq<u8> {
    overwrite(overwrite(d.subrange(e, e + 36), 4, le_bytes32(36 + kept * 20)), 28, le_bytes16(kept))
}

/// The rewritten bytes with the file size set and the metadata name renamed
/// in UTF-16 and UTF-8 form.
#[verifier::opaque]
pub open spec fn finish(r0: Seq<u8>) -> Seq<u8> {
    let r1 = overwrite(r0, 4, le_bytes32((r0.len() % 0x1_0000_0000) as int));
    let o16 = ascii_utf16("com.android.vending.splits"@);
    let n16 = ascii_utf16("com.android.vending.spl_ds"@);
    let r2 = replace_scan(r1, o16, n16, 0, r1.len() - o16.len());
    let o8 = ascii_bytes("com.android.vending.splits"@);
    let n8 = ascii_bytes("com.android.vending.spl_ds"@);
    replace_scan(r2, o8, n8, 0, r2.len() - o8.len())
}

/// The manifest with the target attributes of the element at `e` removed.
#[verifier::opaque]
pub open spec fn rebuild(d: Seq<u8>, e: int, targets: Seq<int>) -> Option<Seq<u8>> {
    let cnt = le16(d, e + 28);
    let k = kept_attrs(d, e, cnt, targets);
    if k.1 == 0 {
        None
    } else {
        Some(finish(d.take(e) + new_header(d, e, cnt - k.1) + k.0 + d.skip(e + le32(d, e + 4))))
    }
}

/// The manifest without the split requirements: the attributes
/// `requiredSplitTypes` and `splitTypes` are dropped from the first element
/// that has them (its size and attribute count adjusted, and the file size
/// in the header), and the `com.android.vending.splits` metadata name is
/// renamed in UTF-16 and UTF-8 form. `None` when there is nothing to remove.
pub open spec fn sanitized(d: Seq<u8>) -> Option<Seq<u8>> {
    if first_window(d, split_types_id(), 0) is None {
        None
    } else {
        match first_window(d, resmap_marker(), 0) {
            None => None,
            Some(p) => {
                let targets = target_slots(d, p + 8, (le32(d, p + 4) - 8) / 4);
                if targets.len() == 0 {
                    None
                } else {
                    match first_element(d, targets, 0) {
                        None => None,
                        Some(e) => rebuild(d, e, targets),
                    }
                }
            },
        }
    }
}

// ---------------------------------------------------------------------
// Executable rewrite
// ---------------------------------------------------------------------

pub open spec fn ints(v: Seq<usize>) -> Seq<int> {
    v.map_values(|x: usize| x as int)
}

/// Whether `w` occurs in `d` at `i`.
fn window_at_exec(d: &[u8], i: usize, w: &[u8]) -> (r: bool)
    ensures
        r == window_at(d@, i as int, w@),
{
    let n = d.len();
    if i > d.len() || d.len() - i < w.len() {
        return false;
    }
    let mut k: usize = 0;
    while k < w.len()
        invariant
            n == d@.len(),
            i + w@.len() <= d@.len(),
            k <= w@.len(),
            forall|q: int| 0 <= q < k ==> d@[i + q] == w@[q],
        decreases w.len() - k,
    {
        if d[i + k] != w[k] {
            assert(d@.subrange(i as int, i + w@.len())[k as int] != w@[k as int]);
            return false;
        }
        k += 1;
    }
    assert(d@.subrange(i as int, i + w@.len()) =~= w@);
    true
}

proof fn lemma_first_window_skip(d: Seq<u8>, w: Seq<u8>, a: int, b: int)
    requires
        0 <= a <= b,
        forall|q: int| a <= q < b ==> !window_at(d, q, w),
        b + w.len() <= d.len() || b == a,
    ensures
        first_window(d, w, a) == first_window(d, w, b),
    decreases b - a,
{
    if a < b {
        lemma_first_window_skip(d, w, a + 1, b);
    }
}

/// The first position where `w` occurs.
fn find_window(d: &[u8], w: &[u8]) -> (r: Option<usize>)
    requires
        w@.len() > 0,
    ensures
        match r {
            Some(i) => first_window(d@, w@, 0) == Some(i as int) && window_at(d@, i as int, w@),
            None => first_window(d@, w@, 0) is None,
        },
{
    if d.len() < w.len() {
        return None;
    }
    let n = d.len();
    let mut i: usize = 0;
    while i <= d.len() - w.len()
        invariant
            n == d@.len(),
            w@.len() > 0,
            w@.len() <= d@.len(),
            i <= d@.len() - w@.len() + 1,
            forall|q: int| 0 <= q < i ==> !window_at(d@, q, w@),
        decreases d.len() - w.len() + 1 - i,
    {
        if window_at_exec(d, i, w) {
            proof {
                lemma_first_window_skip(d@, w@, 0, i as int);
            }
            return Some(i);
        }
        i += 1;
    }
    proof {
        lemma_first_window_skip(d@, w@, 0, i as int - 1);
        assert(!window_at(d@, i - 1, w@));
        assert(first_window(d@, w@, i as int) is None);
    }
    None
}

/// The map slots holding a split-type id.
fn find_target_slots(d: &[u8], base: usize, n: usize) -> (r: Vec<usize>)
    requires
        base + 4 * n <= d@.len(),
    ensures
        ints(r@) == target_slots(d@, base as int, n as int),
        forall|q: int| 0 <= q < r@.len() ==> (#[trigger] r@[q]) < n,
{
    let dl = d.len();
    let mut out: Vec<usize> = Vec::new();
    let mut k: usize = 0;
    assert(ints(out@) =~= target_slots(d@, base as int, 0));
    while k < n
        invariant
            dl == d@.len(),
            base + 4 * n <= d@.len(),
            k <= n,
            ints(out@) == target_slots(d@, base as int, k as int),
            forall|q: int| 0 <= q < out@.len() ==> (#[trigger] out@[q]) < k,
        decreases n - k,
    {
        let id = read_u32(d, base + 4 * k);
        if id == 0x0101064e || id == 0x0101064f {
            let ghost o0 = ints(out@);
            out.push(k);
            assert(ints(out@) =~= o0.push(k as int));
        }
        k += 1;
    }
    out
}

/// The name key of attribute `a` of the element at `i`.
fn attr_key_exec(d: &[u8], i: usize, a: usize) -> (r: usize)
    requires
        i + 36 + 20 * a + 8 <= d@.len(),
    ensures
        r as int == attr_key(d@, i as int, a as int),
{
    let n = d.len();
    let v = read_u32(d, i + 36 + 20 * a + 4);
    if v < 0x8000_0000 {
        v as usize
    } else {
        usize::MAX - (0xFFFF_FFFFu32 - v) as usize
    }
}

fn contains_slot(v: &Vec<usize>, k: usize) -> (r: bool)
    ensures
        r == ints(v@).contains(k as int),
{
    let mut i: usize = 0;
    while i < v.len()
        invariant
            i <= v@.len(),
            forall|q: int| 0 <= q < i ==> v@[q] != k,
        decreases v.len() - i,
    {
        if v[i] == k {
            assert(ints(v@)[i as int] == k as int);
            return true;
        }
        i += 1;
    }
    proof {
        if ints(v@).contains(k as int) {
            let q = choose|q: int| 0 <= q < ints(v@).len() && ints(v@)[q] == k as int;
            assert(v@[q] == k);
        }
    }
    false
}

fn element_ok_exec(d: &[u8], i: usize, targets: &Vec<usize>) -> (r: bool)
    requires
        i + 4 <= d@.len(),
    ensures
        r == element_ok(d@, i as int, ints(targets@)),
{
    reveal(element_ok);
    let marker: [u8; 4] = [0x02, 0x01, 0x10, 0x00];
    assert(marker@ =~= element_marker());
    if !window_at_exec(d, i, marker.as_slice()) || d.len() - i < 36 {
        return false;
    }
    let cnt = read_u16(d, i + 28) as usize;
    let size = read_u32(d, i + 4) as usize;
    if !(cnt > 0 && cnt < 200 && size == 36 + cnt * 20 && size <= d.len() - i) {
        return false;
    }
    let mut a: usize = 0;
    while a < cnt
        invariant
            i + size <= d@.len(),
            size == 36 + cnt * 20,
            size == le32(d@, i + 4),
            0 < cnt,
            window_at(d@, i as int, element_marker()),
            i + 36 <= d@.len(),
            a <= cnt < 200,
            cnt == le16(d@, i + 28),
            forall|q: int| 0 <= q < a ==> !ints(targets@).contains(#[trigger] attr_key(d@, i as int, q)),
        decreases cnt - a,
    {
        let key = attr_key_exec(d, i, a);
        if contains_slot(targets, key) {
            assert(has_target_attr(d@, i as int, cnt as int, ints(targets@)));
            proof {
                reveal(element_ok);
            }
            return true;
        }
        a += 1;
    }
    false
}

proof fn lemma_first_element_skip(d: Seq<u8>, t: Seq<int>, a: int, b: int)
    requires
        0 <= a <= b,
        forall|q: int| a <= q < b ==> !element_ok(d, q, t),
        b + 4 <= d.len() || b == a,
    ensures
        first_element(d, t, a) == first_element(d, t, b),
    decreases b - a,
{
    if a < b {
        lemma_first_element_skip(d, t, a + 1, b);
    }
}

/// The first element chunk with a target attribute.
fn find_element(d: &[u8], targets: &Vec<usize>) -> (r: Option<usize>)
    ensures
        match r {
            Some(i) => first_element(d@, ints(targets@), 0) == Some(i as int) && element_ok(d@, i as int, ints(targets@)),
            None => first_element(d@, ints(targets@), 0) is None,
        },
{
    if d.len() < 4 {
        return None;
    }
    let n = d.len();
    let mut i: usize = 0;
    while i <= d.len() - 4
        invariant
            n == d@.len(),
            4 <= d@.len(),
            i <= d@.len() - 3,
            forall|q: int| 0 <= q < i ==> !element_ok(d@, q, ints(targets@)),
        decreases d.len() - 3 - i,
    {
        if element_ok_exec(d, i, targets) {
            proof {
                lemma_first_element_skip(d@, ints(targets@), 0, i as int);
            }
            return Some(i);
        }
        i += 1;
    }
    proof {
        lemma_first_element_skip(d@, ints(targets@), 0, i as int - 1);
        assert(!element_ok(d@, i - 1, ints(targets@)));
        assert(first_element(d@, ints(targets@), i as int) is None);
    }
    None
}

/// The attribute records that stay, and how many were removed.
fn keep_attrs(d: &[u8], e: usize, cnt: usize, targets: &Vec<usize>) -> (r: (Vec<u8>, usize))
    requires
        e + 36 + 20 * cnt <= d@.len(),
        cnt < 200,
    ensures
        (r.0@, r.1 as int) == kept_attrs(d@, e as int, cnt as int, ints(targets@)),
        r.1 <= cnt,
{
    let n = d.len();
    let mut out: Vec<u8> = Vec::new();
    let mut removed: usize = 0;
    let mut a: usize = 0;
    assert(out@ =~= kept_attrs(d@, e as int, 0, ints(targets@)).0);
    while a < cnt
        invariant
            n == d@.len(),
            e + 36 + 20 * cnt <= d@.len(),
            a <= cnt < 200,
            removed <= a,
            (out@, removed as int) == kept_attrs(d@, e as int, a as int, ints(targets@)),
        decreases cnt - a,
    {
        let key = attr_key_exec(d, e, a);
        let off = e + 36 + 20 * a;
        if contains_slot(targets, key) {
            removed += 1;
        } else {
            let ghost o0 = out@;
            let mut k: usize = 0;
            while k < 20
                invariant
                    n == d@.len(),
                    off + 20 <= d@.len(),
                    k <= 20,
                    out@ == o0 + d@.subrange(off as int, off + k),
                decreases 20 - k,
            {
                out.push(d[off + k]);
                k += 1;
                assert(out@ =~= o0 + d@.subrange(off as int, off + k));
            }
        }
        a += 1;
    }
    (out, removed)
}

/// Writes `w` over `v` from `at` on.
fn put_bytes(v: &mut Vec<u8>, at: usize, w: &[u8])
    requires
        at + w@.len() <= old(v)@.len(),
    ensures
        final(v)@ == overwrite(old(v)@, at as int, w@),
{
    let ghost v0 = v@;
    let n = v.len();
    let mut k: usize = 0;
    while k < w.len()
        invariant
            n == v@.len(),
            at + w@.len() <= v@.len(),
            v@.len() == v0.len(),
            k <= w@.len(),
            forall|q: int| 0 <= q < v@.len() ==> v@[q] == if at <= q < at + k { w@[q - at] } else { v0[q] },
        decreases w.len() - k,
    {
        v.set(at + k, w[k]);
        k += 1;
    }
    assert(v@ =~= overwrite(v0, at as int, w@));
}

/// The little-endian bytes of `x`.
fn u32_bytes(x: u32) -> (r: [u8; 4])
    ensures
        r@ == le_bytes32(x as int),
{
    let r = [(x % 256) as u8, ((x / 256) % 256) as u8, ((x / 65536) % 256) as u8, ((x / 16777216) % 256) as u8];
    assert(r@ =~= le_bytes32(x as int));
    r
}

fn u16_bytes(x: u16) -> (r: [u8; 2])
    ensures
        r@ == le_bytes16(x as int),
{
    let r = [(x % 256) as u8, ((x / 256) % 256) as u8];
    assert(r@ =~= le_bytes16(x as int));
    r
}

/// Every position `p < to` in turn: where `pat` occurs at `p`, `rep` is
/// written over it.
fn replace_in_place(v: &mut Vec<u8>, pat: &[u8], rep: &[u8], to: usize)
    requires
        pat@.len() == rep@.len(),
        to + pat@.len() <= old(v)@.len(),
    ensures
        final(v)@ == replace_scan(old(v)@, pat@, rep@, 0, to as int),
{
    let ghost v0 = v@;
    let mut p: usize = 0;
    while p < to
        invariant
            pat@.len() == rep@.len(),
            to + pat@.len() <= v@.len(),
            p <= to,
            replace_scan(v0, pat@, rep@, 0, to as int) == replace_scan(v@, pat@, rep@, p as int, to as int),
        decreases to - p,
    {
        if window_at_exec(v.as_slice(), p, pat) {
            put_bytes(v, p, rep);
        }
        p += 1;
    }
}

/// The bytes of an ASCII string, and its UTF-16LE bytes.
fn ascii_encodings(s: &str) -> (r: (Vec<u8>, Vec<u8>))
    ensures
        r.0@ == ascii_bytes(s@),
        r.1@ == ascii_utf16(s@),
{
    let cs = crate::text::chars_of(s);
    let mut b8: Vec<u8> = Vec::new();
    let mut b16: Vec<u8> = Vec::new();
    let mut i: usize = 0;
    while i < cs.len()
        invariant
            i <= cs@.len(),
            cs@ == s@,
            b8@ == ascii_bytes(s@.take(i as int)),
            b16@ == ascii_utf16(s@.take(i as int)),
        decreases cs.len() - i,
    {
        let c = (cs[i] as u32) as u8;
        b8.push(c);
        b16.push(c);
        b16.push(0);
        i += 1;
        assert(b8@ =~= ascii_bytes(s@.take(i as int)));
        assert(b16@ =~= ascii_utf16(s@.take(i as int)));
    }
    assert(s@.take(cs@.len() as int) =~= s@);
    (b8, b16)
}

/// Whether the rewrite can read the resource map of `manifest`: the
/// manifest is only rewritten when this holds.
pub fn manifest_resmap_fits(manifest: &[u8]) -> (r: bool)
    ensures
        r == resmap_fits(manifest@),
{
    let id: [u8; 4] = [0x4e, 0x06, 0x01, 0x01];
    let marker: [u8; 4] = [0x80, 0x01, 0x08, 0x00];
    assert(id@ =~= split_types_id());
    assert(marker@ =~= resmap_marker());
    if find_window(manifest, id.as_slice()).is_none() {
        return true;
    }
    match find_window(manifest, marker.as_slice()) {
        Some(p) => {
            if manifest.len() - p < 8 {
                return false;
            }
            let size = read_u32(manifest, p + 4) as usize;
            size >= 8 && size <= manifest.len() - p
        },
        None => true,
    }
}

/// Appends `w[from..]` to `out`.
fn append_bytes(out: &mut Vec<u8>, w: &[u8], from: usize)
    requires
        from <= w@.len(),
    ensures
        final(out)@ == old(out)@ + w@.skip(from as int),
{
    let ghost o0 = out@;
    let mut q = from;
    while q < w.len()
        invariant
            from <= q <= w@.len(),
            out@ == o0 + w@.subrange(from as int, q as int),
        decreases w.len() - q,
    {
        out.push(w[q]);
        q += 1;
        assert(out@ =~= o0 + w@.subrange(from as int, q as int));
    }
    assert(w@.subrange(from as int, w@.len() as int) =~= w@.skip(from as int));
}

/// The header of the element at `e`, set for `kept` attributes.
fn header_for(d: &[u8], e: usize, kept: usize) -> (r: Vec<u8>)
    requires
        e + 36 <= d@.len(),
        kept < 200,
    ensures
        r@ == new_header(d@, e as int, kept as int),
{
    let n = d.len();
    let part = vstd::slice::slice_subrange(d, e, e + 36);
    let mut hdr: Vec<u8> = Vec::new();
    append_bytes(&mut hdr, part, 0);
    assert(hdr@ =~= d@.subrange(e as int, e + 36));
    let new_size = u32_bytes((36 + kept * 20) as u32);
    put_bytes(&mut hdr, 4, new_size.as_slice());
    let new_cnt = u16_bytes(kept as u16);
    put_bytes(&mut hdr, 28, new_cnt.as_slice());
    hdr
}

/// Sets the file size and renames the metadata name.
fn finish_exec(out: Vec<u8>) -> (r: Vec<u8>)
    requires
        out@.len() >= 8,
    ensures
        r@ == finish(out@),
{
    reveal(finish);
    let mut out = out;
    let total = u32_bytes((out.len() as u64 % 0x1_0000_0000u64) as u32);
    put_bytes(&mut out, 4, total.as_slice());
    let (o8, o16) = ascii_encodings("com.android.vending.splits");
    let (n8, n16) = ascii_encodings("com.android.vending.spl_ds");
    proof {
        reveal_strlit("com.android.vending.splits");
        reveal_strlit("com.android.vending.spl_ds");
    }
    if out.len() > o16.len() {
        let to = out.len() - o16.len();
        replace_in_place(&mut out, o16.as_slice(), n16.as_slice(), to);
    }
    if out.len() > o8.len() {
        let to = out.len() - o8.len();
        replace_in_place(&mut out, o8.as_slice(), n8.as_slice(), to);
    }
    out
}

/// Rebuilds the manifest without the target attributes of the element at `e`.
#[verifier::spinoff_prover]
#[verifier::rlimit(60)]
fn rebuild_exec(d: &[u8], e: usize, targets: &Vec<usize>) -> (r: Option<Vec<u8>>)
    requires
        element_ok(d@, e as int, ints(targets@)),
    ensures
        match r {
            Some(v) => rebuild(d@, e as int, ints(targets@)) == Some(v@),
            None => rebuild(d@, e as int, ints(targets@)) is None,
        },
{
    let n = d.len();
    assert(e + 36 <= d@.len() && 0 < le16(d@, e + 28) < 200 && le32(d@, e + 4) == 36 + le16(d@, e + 28) * 20
        && e + le32(d@, e + 4) <= d@.len()) by {
        reveal(element_ok);
    }
    let cnt = read_u16(d, e + 28) as usize;
    let esize = read_u32(d, e + 4) as usize;
    let (kept, removed) = keep_attrs(d, e, cnt, targets);
    let ghost k = kept_attrs(d@, e as int, cnt as int, ints(targets@));
    if removed == 0 {
        assert(rebuild(d@, e as int, ints(targets@)) is None) by {
            reveal(rebuild);
        }
        return None;
    }
    let hdr = header_for(d, e, cnt - removed);
    let out = assemble(d, e, esize, &hdr, &kept);
    assert(rebuild(d@, e as int, ints(targets@)) == Some(finish(out@))) by {
        reveal(rebuild);
        assert(out@ == d@.take(e as int) + new_header(d@, e as int, cnt - k.1) + k.0 + d@.skip(e + le32(d@, e + 4)));
    }
    Some(finish_exec(out))
}

/// `d[..e]`, then the new header and the kept attributes, then `d[e + esize..]`.
fn assemble(d: &[u8], e: usize, esize: usize, hdr: &Vec<u8>, kept: &Vec<u8>) -> (r: Vec<u8>)
    requires
        e + esize <= d@.len(),
        hdr@.len() == 36,
    ensures
        r@ == d@.take(e as int) + hdr@ + kept@ + d@.skip(e + esize),
        r@.len() >= 8,
{
    let n = d.len();
    let mut out: Vec<u8> = Vec::new();
    let head = vstd::slice::slice_subrange(d, 0, e);
    append_bytes(&mut out, head, 0);
    append_bytes(&mut out, hdr.as_slice(), 0);
    append_bytes(&mut out, kept.as_slice(), 0);
    append_bytes(&mut out, d, e + esize);
    proof {
        assert(head@.skip(0) =~= d@.take(e as int));
        assert(hdr@.skip(0) =~= hdr@);
        assert(kept@.skip(0) =~= kept@);
    }
    out
}

/// Removes the split requirements from a binary `AndroidManifest.xml`: the
/// `requiredSplitTypes` and `splitTypes` attributes of the first element
/// that has them, with the sizes that cover them, and the name
/// `com.android.vending.splits`. `None` when the manifest has none of them.
pub fn sanitize_split_manifest(manifest: &[u8]) -> (r: Option<Vec<u8>>)
    requires
        resmap_fits(manifest@),
    ensures
        match r {
            Some(v) => sanitized(manifest@) == Some(v@),
            None => sanitized(manifest@) is None,
        },
{
    let n = manifest.len();
    let id: [u8; 4] = [0x4e, 0x06, 0x01, 0x01];
    let marker: [u8; 4] = [0x80, 0x01, 0x08, 0x00];
    assert(id@ =~= split_types_id());
    assert(marker@ =~= resmap_marker());
    if find_window(manifest, id.as_slice()).is_none() {
        return None;
    }
    let p = match find_window(manifest, marker.as_slice()) {
        Some(p) => p,
        None => return None,
    };
    let size = read_u32(manifest, p + 4) as usize;
    let targets = find_target_slots(manifest, p + 8, (size - 8) / 4);
    if targets.len() == 0 {
        return None;
    }
    match find_element(manifest, &targets) {
        Some(e) => rebuild_exec(manifest, e, &targets),
        None => None,
    }
}

} // verus!
