//! Character-level text primitives with exact specifications.
//!
//! Texts are modelled as `Seq<char>`, the view of `str` and `String`.
//! Ranges of a character vector are given by a start and an end index.

use vstd::prelude::*;

verus! {

// ---------------------------------------------------------------------
// Character classes
// ---------------------------------------------------------------------

/// Unicode `White_Space` property, as used by `char::is_whitespace` and `str::trim`.
pub open spec fn is_ws(c: char) -> bool {
    let u = c as u32;
    (0x09 <= u <= 0x0d) || u == 0x20 || u == 0x85 || u == 0xa0 || u == 0x1680 || (0x2000 <= u
        <= 0x200a) || u == 0x2028 || u == 0x2029 || u == 0x202f || u == 0x205f || u == 0x3000
}

/// Executable counterpart of [`is_ws`].
pub fn char_is_ws(c: char) -> (b: bool)
    ensures
        b == is_ws(c),
{
    let u = c as u32;
    (0x09 <= u && u <= 0x0d) || u == 0x20 || u == 0x85 || u == 0xa0 || u == 0x1680 || (0x2000
        <= u && u <= 0x200a) || u == 0x2028 || u == 0x2029 || u == 0x202f || u == 0x205f || u
        == 0x3000
}

pub open spec fn is_digit(c: char) -> bool {
    '0' <= c && c <= '9'
}

pub open spec fn digit_value(c: char) -> nat {
    (c as u32 - '0' as u32) as nat
}

pub open spec fn is_ascii_upper(c: char) -> bool {
    'A' <= c && c <= 'Z'
}

pub open spec fn is_ascii_lower(c: char) -> bool {
    'a' <= c && c <= 'z'
}

pub open spec fn is_ascii_alnum(c: char) -> bool {
    is_ascii_upper(c) || is_ascii_lower(c) || is_digit(c)
}

/// `char::to_ascii_lowercase`.
pub open spec fn lower(c: char) -> char {
    if is_ascii_upper(c) {
        ((c as u32) + 32) as char
    } else {
        c
    }
}

/// `char::to_ascii_uppercase`.
pub open spec fn upper(c: char) -> char {
    if is_ascii_lower(c) {
        ((c as u32) - 32) as char
    } else {
        c
    }
}

pub fn char_lower(c: char) -> (r: char)
    ensures
        r == lower(c),
{
    if 'A' <= c && c <= 'Z' {
        let u = c as u32 + 32;
        proof {
            assert(0x61 <= u <= 0x7a);
        }
        char_from_ascii(u)
    } else {
        c
    }
}

/// A character built from a code point in the ASCII range.
fn char_from_ascii(u: u32) -> (c: char)
    requires
        u < 128,
    ensures
        c == u as char,
        c as u32 == u,
{
    let b: u8 = u as u8;
    b as char
}

/// Lower-cases a sequence character by character (ASCII only).
pub open spec fn lower_seq(s: Seq<char>) -> Seq<char> {
    s.map_values(|c: char| lower(c))
}

/// ASCII case-insensitive equality (`str::eq_ignore_ascii_case`).
pub open spec fn eq_ignore_case(a: Seq<char>, b: Seq<char>) -> bool {
    lower_seq(a) =~= lower_seq(b)
}

// ---------------------------------------------------------------------
// Building strings
// ---------------------------------------------------------------------

/// `String::push`.
#[verifier::external_body]
pub(crate) fn push_char(s: &mut String, c: char)
    ensures
        final(s)@ == old(s)@.push(c),
{
    s.push(c);
}

/// The characters of a string slice.
pub fn chars_of(s: &str) -> (v: Vec<char>)
    ensures
        v@ == s@,
{
    let mut v: Vec<char> = Vec::new();
    for c in it: s.chars()
        invariant
            v@ == it.seq().take(it.index() as int),
            it.seq() == s@,
    {
        v.push(c);
    }
    v
}

/// A string holding the characters `v[lo..hi]`.
pub fn string_of(v: &[char], lo: usize, hi: usize) -> (s: String)
    requires
        lo <= hi <= v@.len(),
    ensures
        s@ == v@.subrange(lo as int, hi as int),
{
    let mut s = String::new();
    let mut i = lo;
    while i < hi
        invariant
            lo <= i <= hi <= v@.len(),
            s@ == v@.subrange(lo as int, i as int),
        decreases hi - i,
    {
        push_char(&mut s, v[i]);
        i += 1;
        assert(s@ =~= v@.subrange(lo as int, i as int));
    }
    s
}

/// A string holding all the characters of `v`.
pub fn string_from(v: &[char]) -> (s: String)
    ensures
        s@ == v@,
{
    let s = string_of(v, 0, v.len());
    assert(v@.subrange(0, v@.len() as int) =~= v@);
    s
}

/// A string copy of a string slice.
pub fn string_from_str(t: &str) -> (s: String)
    ensures
        s@ == t@,
{
    let v = chars_of(t);
    string_from(v.as_slice())
}

/// Appends the characters of a string slice.
pub fn push_str(s: &mut String, t: &str)
    ensures
        final(s)@ == old(s)@ + t@,
{
    let v = chars_of(t);
    let ghost s0 = s@;
    let mut i: usize = 0;
    while i < v.len()
        invariant
            i <= v@.len(),
            v@ == t@,
            s@ == s0 + v@.subrange(0, i as int),
        decreases v.len() - i,
    {
        push_char(s, v[i]);
        i += 1;
        assert(s@ =~= s0 + v@.subrange(0, i as int));
    }
    assert(v@.subrange(0, v@.len() as int) =~= v@);
}

/// Appends the characters of `v`.
pub fn push_chars(s: &mut String, v: &[char])
    ensures
        final(s)@ == old(s)@ + v@,
{
    let ghost s0 = s@;
    let mut i: usize = 0;
    while i < v.len()
        invariant
            i <= v@.len(),
            s@ == s0 + v@.subrange(0, i as int),
        decreases v.len() - i,
    {
        push_char(s, v[i]);
        i += 1;
        assert(s@ =~= s0 + v@.subrange(0, i as int));
    }
    assert(v@.subrange(0, v@.len() as int) =~= v@);
}

/// Concatenation of two string slices into a new string.
pub fn concat2(a: &str, b: &str) -> (s: String)
    ensures
        s@ == a@ + b@,
{
    let mut s = string_from_str(a);
    push_str(&mut s, b);
    s
}

// ---------------------------------------------------------------------
// Comparisons
// ---------------------------------------------------------------------

/// Equality of two character ranges.
pub fn range_eq(a: &[char], alo: usize, ahi: usize, b: &[char], blo: usize, bhi: usize) -> (r:
    bool)
    requires
        alo <= ahi <= a@.len(),
        blo <= bhi <= b@.len(),
    ensures
        r == (a@.subrange(alo as int, ahi as int) == b@.subrange(blo as int, bhi as int)),
{
    if ahi - alo != bhi - blo {
        proof {
            assert(a@.subrange(alo as int, ahi as int).len() != b@.subrange(
                blo as int,
                bhi as int,
            ).len());
        }
        return false;
    }
    let n = ahi - alo;
    let mut i: usize = 0;
    while i < n
        invariant
            n == ahi - alo,
            n == bhi - blo,
            alo <= ahi <= a@.len(),
            blo <= bhi <= b@.len(),
            i <= n,
            a@.subrange(alo as int, alo + i) == b@.subrange(blo as int, blo + i),
        decreases n - i,
    {
        if a[alo + i] != b[blo + i] {
            proof {
                assert(a@.subrange(alo as int, ahi as int)[i as int] != b@.subrange(
                    blo as int,
                    bhi as int,
                )[i as int]);
            }
            return false;
        }
        proof {
            assert(a@.subrange(alo as int, alo + i + 1) =~= a@.subrange(alo as int, alo + i).push(a@[alo + i]));
            assert(b@.subrange(blo as int, blo + i + 1) =~= b@.subrange(blo as int, blo + i).push(b@[blo + i]));
        }
        i += 1;
    }
    assert(a@.subrange(alo as int, ahi as int) =~= b@.subrange(blo as int, bhi as int));
    true
}

/// Equality of two character vectors.
pub fn chars_eq(a: &[char], b: &[char]) -> (r: bool)
    ensures
        r == (a@ == b@),
{
    let r = range_eq(a, 0, a.len(), b, 0, b.len());
    assert(a@.subrange(0, a@.len() as int) =~= a@);
    assert(b@.subrange(0, b@.len() as int) =~= b@);
    r
}

/// Equality of two string slices.
pub fn str_eq(a: &str, b: &str) -> (r: bool)
    ensures
        r == (a@ == b@),
{
    let va = chars_of(a);
    let vb = chars_of(b);
    chars_eq(va.as_slice(), vb.as_slice())
}

/// ASCII case-insensitive equality of two ranges.
pub fn range_eq_ignore_case(
    a: &[char],
    alo: usize,
    ahi: usize,
    b: &[char],
    blo: usize,
    bhi: usize,
) -> (r: bool)
    requires
        alo <= ahi <= a@.len(),
        blo <= bhi <= b@.len(),
    ensures
        r == eq_ignore_case(a@.subrange(alo as int, ahi as int), b@.subrange(blo as int, bhi as int)),
{
    let ghost sa = a@.subrange(alo as int, ahi as int);
    let ghost sb = b@.subrange(blo as int, bhi as int);
    if ahi - alo != bhi - blo {
        proof {
            assert(lower_seq(sa).len() != lower_seq(sb).len());
        }
        return false;
    }
    let n = ahi - alo;
    let mut i: usize = 0;
    while i < n
        invariant
            n == ahi - alo,
            n == bhi - blo,
            alo <= ahi <= a@.len(),
            blo <= bhi <= b@.len(),
            sa == a@.subrange(alo as int, ahi as int),
            sb == b@.subrange(blo as int, bhi as int),
            i <= n,
            lower_seq(sa.take(i as int)) == lower_seq(sb.take(i as int)),
        decreases n - i,
    {
        if char_lower(a[alo + i]) != char_lower(b[blo + i]) {
            proof {
                assert(lower_seq(sa)[i as int] != lower_seq(sb)[i as int]);
            }
            return false;
        }
        proof {
            assert(lower_seq(sa.take(i + 1)) =~= lower_seq(sa.take(i as int)).push(lower(sa[i as int])));
            assert(lower_seq(sb.take(i + 1)) =~= lower_seq(sb.take(i as int)).push(lower(sb[i as int])));
        }
        i += 1;
    }
    assert(sa.take(n as int) =~= sa);
    assert(sb.take(n as int) =~= sb);
    assert(lower_seq(sa) =~= lower_seq(sb));
    true
}

/// `str::eq_ignore_ascii_case`.
pub fn str_eq_ignore_case(a: &str, b: &str) -> (r: bool)
    ensures
        r == eq_ignore_case(a@, b@),
{
    let va = chars_of(a);
    let vb = chars_of(b);
    let r = range_eq_ignore_case(va.as_slice(), 0, va.len(), vb.as_slice(), 0, vb.len());
    assert(va@.subrange(0, va@.len() as int) =~= va@);
    assert(vb@.subrange(0, vb@.len() as int) =~= vb@);
    r
}

// ---------------------------------------------------------------------
// Prefixes, suffixes and occurrences
// ---------------------------------------------------------------------

pub open spec fn starts_with(s: Seq<char>, p: Seq<char>) -> bool {
    p.len() <= s.len() && s.subrange(0, p.len() as int) == p
}

pub open spec fn ends_with(s: Seq<char>, p: Seq<char>) -> bool {
    p.len() <= s.len() && s.subrange(s.len() - p.len(), s.len() as int) == p
}

/// `p` occurs in `s` at position `i`.
pub open spec fn match_at(s: Seq<char>, p: Seq<char>, i: int) -> bool {
    0 <= i && i + p.len() <= s.len() && s.subrange(i, i + p.len()) == p
}

/// `str::contains` with a string pattern.
pub open spec fn contains(s: Seq<char>, p: Seq<char>) -> bool {
    exists|i: int| match_at(s, p, i)
}

/// `str::find` with a string pattern, counted in characters.
#[verifier::opaque]
pub open spec fn find(s: Seq<char>, p: Seq<char>) -> Option<int> {
    if contains(s, p) {
        Some(choose|i: int| match_at(s, p, i) && forall|k: int| 0 <= k < i ==> !match_at(s, p, k))
    } else {
        None
    }
}

pub proof fn lemma_find_first(s: Seq<char>, p: Seq<char>, i: int)
    requires
        match_at(s, p, i),
        forall|k: int| 0 <= k < i ==> !match_at(s, p, k),
    ensures
        find(s, p) == Some(i),
{
    reveal(find);
    assert(contains(s, p));
    let j = choose|j: int| match_at(s, p, j) && forall|k: int| 0 <= k < j ==> !match_at(s, p, k);
    assert(match_at(s, p, j) && forall|k: int| 0 <= k < j ==> !match_at(s, p, k));
    if j < i {
        assert(!match_at(s, p, j));
    }
    if i < j {
        assert(!match_at(s, p, i));
    }
}

/// Whether `p` occurs in `v` at position `i`.
pub fn match_at_exec(v: &[char], lo: usize, hi: usize, p: &[char], i: usize) -> (r: bool)
    requires
        lo <= hi <= v@.len(),
        lo <= i,
    ensures
        r == match_at(v@.subrange(lo as int, hi as int), p@, i - lo),
{
    let ghost s = v@.subrange(lo as int, hi as int);
    if i > hi || hi - i < p.len() {
        return false;
    }
    let r = range_eq(v, i, i + p.len(), p, 0, p.len());
    proof {
        assert(p@.subrange(0, p@.len() as int) =~= p@);
        assert(s.subrange(i - lo, i - lo + p@.len()) =~= v@.subrange(i as int, i + p@.len()));
    }
    r
}

/// First occurrence of `p` in `v[lo..hi]`, as an index of `v`.
pub fn find_in(v: &[char], lo: usize, hi: usize, p: &[char]) -> (r: Option<usize>)
    requires
        lo <= hi <= v@.len(),
    ensures
        match r {
            Some(i) => lo <= i && find(v@.subrange(lo as int, hi as int), p@) == Some(i - lo)
                && match_at(v@.subrange(lo as int, hi as int), p@, i - lo),
            None => find(v@.subrange(lo as int, hi as int), p@) is None,
        },
{
    reveal(find);
    let ghost s = v@.subrange(lo as int, hi as int);
    let mut i = lo;
    while i <= hi
        invariant
            lo <= i <= hi + 1,
            hi <= v@.len(),
            s == v@.subrange(lo as int, hi as int),
            forall|k: int| 0 <= k < i - lo ==> !match_at(s, p@, k),
        decreases hi + 1 - i,
    {
        if match_at_exec(v, lo, hi, p, i) {
            proof {
                lemma_find_first(s, p@, i - lo);
            }
            return Some(i);
        }
        if i == hi {
            proof {
                reveal(find);
                assert forall|k: int| !match_at(s, p@, k) by {
                    if 0 <= k < i - lo + 1 {
                    } else if k > i - lo {
                        assert(k + p@.len() > s.len());
                    }
                }
            }
            return None;
        }
        i += 1;
    }
    None
}

/// `str::contains` on a range of characters.
pub fn contains_in(v: &[char], lo: usize, hi: usize, p: &[char]) -> (r: bool)
    requires
        lo <= hi <= v@.len(),
    ensures
        r == contains(v@.subrange(lo as int, hi as int), p@),
{
    reveal(find);
    match find_in(v, lo, hi, p) {
        Some(_) => true,
        None => false,
    }
}

/// `str::contains` on string slices.
pub fn str_contains(s: &str, p: &str) -> (r: bool)
    ensures
        r == contains(s@, p@),
{
    let vs = chars_of(s);
    let vp = chars_of(p);
    let r = contains_in(vs.as_slice(), 0, vs.len(), vp.as_slice());
    assert(vs@.subrange(0, vs@.len() as int) =~= vs@);
    r
}

/// `str::starts_with` on a range.
pub fn starts_with_in(v: &[char], lo: usize, hi: usize, p: &[char]) -> (r: bool)
    requires
        lo <= hi <= v@.len(),
    ensures
        r == starts_with(v@.subrange(lo as int, hi as int), p@),
{
    let r = match_at_exec(v, lo, hi, p, lo);
    proof {
        let s = v@.subrange(lo as int, hi as int);
        assert(match_at(s, p@, 0) == starts_with(s, p@));
    }
    r
}

/// `str::ends_with` on a range.
pub fn ends_with_in(v: &[char], lo: usize, hi: usize, p: &[char]) -> (r: bool)
    requires
        lo <= hi <= v@.len(),
    ensures
        r == ends_with(v@.subrange(lo as int, hi as int), p@),
{
    if hi - lo < p.len() {
        return false;
    }
    let r = match_at_exec(v, lo, hi, p, hi - p.len());
    proof {
        let s = v@.subrange(lo as int, hi as int);
        assert(match_at(s, p@, s.len() - p@.len()) == ends_with(s, p@));
    }
    r
}

/// `str::starts_with` on string slices.
pub fn str_starts_with(s: &str, p: &str) -> (r: bool)
    ensures
        r == starts_with(s@, p@),
{
    let vs = chars_of(s);
    let vp = chars_of(p);
    let r = starts_with_in(vs.as_slice(), 0, vs.len(), vp.as_slice());
    assert(vs@.subrange(0, vs@.len() as int) =~= vs@);
    r
}

/// `str::ends_with` on string slices.
pub fn str_ends_with(s: &str, p: &str) -> (r: bool)
    ensures
        r == ends_with(s@, p@),
{
    let vs = chars_of(s);
    let vp = chars_of(p);
    let r = ends_with_in(vs.as_slice(), 0, vs.len(), vp.as_slice());
    assert(vs@.subrange(0, vs@.len() as int) =~= vs@);
    r
}

// ---------------------------------------------------------------------
// Trimming
// ---------------------------------------------------------------------

pub open spec fn trim_start(s: Seq<char>) -> Seq<char>
    decreases s.len(),
{
    if s.len() > 0 && is_ws(s[0]) {
        trim_start(s.drop_first())
    } else {
        s
    }
}

pub open spec fn trim_end(s: Seq<char>) -> Seq<char>
    decreases s.len(),
{
    if s.len() > 0 && is_ws(s.last()) {
        trim_end(s.drop_last())
    } else {
        s
    }
}

/// `str::trim`.
pub open spec fn trim(s: Seq<char>) -> Seq<char> {
    trim_end(trim_start(s))
}

pub proof fn lemma_trim_start_skip(s: Seq<char>, i: int)
    requires
        0 <= i <= s.len(),
        forall|k: int| 0 <= k < i ==> is_ws(s[k]),
        i == s.len() || !is_ws(s[i]),
    ensures
        trim_start(s) == s.skip(i),
    decreases i,
{
    if i == 0 {
        assert(s.skip(0) =~= s);
    } else {
        lemma_trim_start_skip(s.drop_first(), i - 1);
        assert(s.drop_first().skip(i - 1) =~= s.skip(i));
    }
}

pub proof fn lemma_trim_end_take(s: Seq<char>, j: int)
    requires
        0 <= j <= s.len(),
        forall|k: int| j <= k < s.len() ==> is_ws(s[k]),
        j == 0 || !is_ws(s[j - 1]),
    ensures
        trim_end(s) == s.take(j),
    decreases s.len() - j,
{
    if j == s.len() {
        assert(s.take(j) =~= s);
    } else {
        lemma_trim_end_take(s.drop_last(), j);
        assert(s.drop_last().take(j) =~= s.take(j));
    }
}

/// Bounds of `trim(v[lo..hi])` within `v`.
pub fn trim_range(v: &[char], lo: usize, hi: usize) -> (r: (usize, usize))
    requires
        lo <= hi <= v@.len(),
    ensures
        lo <= r.0 <= r.1 <= hi,
        v@.subrange(r.0 as int, r.1 as int) == trim(v@.subrange(lo as int, hi as int)),
        v@.subrange(r.0 as int, hi as int) == trim_start(v@.subrange(lo as int, hi as int)),
{
    let ghost s = v@.subrange(lo as int, hi as int);
    let mut a = lo;
    while a < hi && char_is_ws(v[a])
        invariant
            lo <= a <= hi <= v@.len(),
            forall|k: int| lo <= k < a ==> is_ws(v@[k]),
        decreases hi - a,
    {
        a += 1;
    }
    proof {
        lemma_trim_start_skip(s, a - lo);
        assert(s.skip(a - lo) =~= v@.subrange(a as int, hi as int));
    }
    let mut b = hi;
    while b > a && char_is_ws(v[b - 1])
        invariant
            a <= b <= hi <= v@.len(),
            forall|k: int| b <= k < hi ==> is_ws(v@[k]),
        decreases b - a,
    {
        b -= 1;
    }
    proof {
        let t = v@.subrange(a as int, hi as int);
        lemma_trim_end_take(t, b - a);
        assert(t.take(b - a) =~= v@.subrange(a as int, b as int));
    }
    (a, b)
}

/// `str::trim` producing a new string.
pub fn str_trim(s: &str) -> (r: String)
    ensures
        r@ == trim(s@),
{
    let v = chars_of(s);
    let (a, b) = trim_range(v.as_slice(), 0, v.len());
    assert(v@.subrange(0, v@.len() as int) =~= v@);
    string_of(v.as_slice(), a, b)
}

// ---------------------------------------------------------------------
// UTF-8 widths
// ---------------------------------------------------------------------

/// Bytes that `c` takes in UTF-8 (`char::len_utf8`).
pub open spec fn utf8_len(c: char) -> nat {
    let u = c as u32;
    if u < 0x80 {
        1
    } else if u < 0x800 {
        2
    } else if u < 0x10000 {
        3
    } else {
        4
    }
}

/// Bytes that the characters take in UTF-8 (`str::len`).
pub open spec fn utf8_width(s: Seq<char>) -> nat
    decreases s.len(),
{
    if s.len() == 0 {
        0
    } else {
        utf8_width(s.drop_last()) + utf8_len(s.last())
    }
}

pub proof fn lemma_utf8_width_append(a: Seq<char>, b: Seq<char>)
    ensures
        utf8_width(a + b) == utf8_width(a) + utf8_width(b),
    decreases b.len(),
{
    if b.len() == 0 {
        assert(a + b =~= a);
    } else {
        assert((a + b).drop_last() =~= a + b.drop_last());
        lemma_utf8_width_append(a, b.drop_last());
    }
}

pub proof fn lemma_utf8_width_subrange(s: Seq<char>, i: int, j: int)
    requires
        0 <= i <= j <= s.len(),
    ensures
        utf8_width(s.subrange(i, j)) <= utf8_width(s),
{
    let x = s.take(i);
    let y = s.subrange(i, j);
    let z = s.skip(j);
    assert(s =~= x + y + z);
    lemma_utf8_width_append(x + y, z);
    lemma_utf8_width_append(x, y);
}

/// UTF-8 width of `v[lo..hi]`.
pub fn utf8_width_of(v: &[char], lo: usize, hi: usize) -> (n: usize)
    requires
        lo <= hi <= v@.len(),
        utf8_width(v@) <= usize::MAX,
    ensures
        n == utf8_width(v@.subrange(lo as int, hi as int)),
{
    let mut n: usize = 0;
    let mut k = lo;
    while k < hi
        invariant
            lo <= k <= hi <= v@.len(),
            utf8_width(v@) <= usize::MAX,
            n == utf8_width(v@.subrange(lo as int, k as int)),
        decreases hi - k,
    {
        let u = v[k] as u32;
        let w: usize = if u < 0x80 {
            1
        } else if u < 0x800 {
            2
        } else if u < 0x10000 {
            3
        } else {
            4
        };
        proof {
            assert(v@.subrange(lo as int, k + 1).drop_last() =~= v@.subrange(lo as int, k as int));
            lemma_utf8_width_subrange(v@, lo as int, k + 1);
        }
        n = n + w;
        k += 1;
    }
    n
}

// ---------------------------------------------------------------------
// Decimal numbers
// ---------------------------------------------------------------------

pub open spec fn digit_char(d: nat) -> char
    recommends
        d < 10,
{
    ((d + 48) as u32) as char
}

/// Decimal rendering of a natural number, as `Display` prints integers.
pub open spec fn dec(n: nat) -> Seq<char>
    decreases n,
{
    if n < 10 {
        seq![digit_char(n)]
    } else {
        dec(n / 10).push(digit_char(n % 10))
    }
}

fn digit_char_exec(d: u64) -> (c: char)
    requires
        d < 10,
    ensures
        c == digit_char(d as nat),
{
    char_from_ascii((d + 48) as u32)
}

/// Decimal digits of `n`.
pub fn dec_chars(n: u64) -> (v: Vec<char>)
    ensures
        v@ == dec(n as nat),
    decreases n,
{
    if n < 10 {
        let mut v = Vec::new();
        v.push(digit_char_exec(n));
        assert(v@ =~= dec(n as nat));
        v
    } else {
        let mut v = dec_chars(n / 10);
        v.push(digit_char_exec(n % 10));
        v
    }
}

/// Appends the decimal rendering of `n`.
pub fn push_dec(s: &mut String, n: u64)
    ensures
        final(s)@ == old(s)@ + dec(n as nat),
{
    let v = dec_chars(n);
    push_chars(s, v.as_slice());
}

/// `u64::to_string`.
pub fn u64_to_string(n: u64) -> (s: String)
    ensures
        s@ == dec(n as nat),
{
    let mut s = String::new();
    push_dec(&mut s, n);
    assert(s@ =~= dec(n as nat));
    s
}

/// All characters are ASCII digits.
pub open spec fn all_digits(s: Seq<char>) -> bool {
    forall|i: int| 0 <= i < s.len() ==> is_digit(#[trigger] s[i])
}

/// Value of a sequence of decimal digits.
pub open spec fn digits_value(s: Seq<char>) -> nat
    decreases s.len(),
{
    if s.len() == 0 {
        0
    } else {
        digits_value(s.drop_last()) * 10 + digit_value(s.last())
    }
}

/// The unsigned integer that `str::parse` reads, before the range check:
/// an optional `+` followed by at least one ASCII digit.
pub open spec fn parse_nat(s: Seq<char>) -> Option<nat> {
    let d = if s.len() > 0 && s[0] == '+' {
        s.drop_first()
    } else {
        s
    };
    if d.len() > 0 && all_digits(d) {
        Some(digits_value(d))
    } else {
        None
    }
}

/// `str::parse::<u64>`, as an option.
pub open spec fn parse_u64(s: Seq<char>) -> Option<u64> {
    match parse_nat(s) {
        Some(n) => if n <= u64::MAX {
            Some(n as u64)
        } else {
            None
        },
        None => None,
    }
}

/// `str::parse::<u32>`, as an option.
pub open spec fn parse_u32(s: Seq<char>) -> Option<u32> {
    match parse_nat(s) {
        Some(n) => if n <= u32::MAX {
            Some(n as u32)
        } else {
            None
        },
        None => None,
    }
}

proof fn lemma_digits_value_mono(s: Seq<char>, k: int)
    requires
        0 <= k <= s.len(),
    ensures
        digits_value(s.take(k)) <= digits_value(s),
    decreases s.len() - k,
{
    if k < s.len() {
        lemma_digits_value_mono(s, k + 1);
        assert(s.take(k + 1).drop_last() =~= s.take(k));
    } else {
        assert(s.take(k) =~= s);
    }
}

/// Parses `v[lo..hi]` as an unsigned integer, bounded by `max`.
pub fn parse_uint_in(v: &[char], lo: usize, hi: usize, max: u64) -> (r: Option<u64>)
    requires
        lo <= hi <= v@.len(),
    ensures
        match parse_nat(v@.subrange(lo as int, hi as int)) {
            Some(n) => if n <= max {
                r == Some(n as u64)
            } else {
                r is None
            },
            None => r is None,
        },
{
    let ghost s = v@.subrange(lo as int, hi as int);
    let mut start = lo;
    if lo < hi && v[lo] == '+' {
        start = lo + 1;
    }
    let ghost d = v@.subrange(start as int, hi as int);
    proof {
        if lo < hi && v@[lo as int] == '+' {
            assert(d =~= s.drop_first());
            assert(s.len() > 0 && s[0] == '+');
        } else {
            assert(d =~= s);
        }
        assert(parse_nat(s) == (if d.len() > 0 && all_digits(d) {
            Some(digits_value(d))
        } else {
            None::<nat>
        }));
    }
    if start == hi {
        return None;
    }
    let mut acc: u64 = 0;
    let mut i = start;
    while i < hi
        invariant
            lo <= start <= i <= hi <= v@.len(),
            d == v@.subrange(start as int, hi as int),
            s == v@.subrange(lo as int, hi as int),
            parse_nat(s) == (if d.len() > 0 && all_digits(d) {
                Some(digits_value(d))
            } else {
                None::<nat>
            }),
            all_digits(d.take(i - start)),
            acc as nat == digits_value(d.take(i - start)),
            acc <= max,
        decreases hi - i,
    {
        let c = v[i];
        if !('0' <= c && c <= '9') {
            proof {
                assert(!is_digit(d[i - start]));
                assert(!all_digits(d));
            }
            return None;
        }
        let dv = (c as u32 - '0' as u32) as u64;
        proof {
            assert(d.take(i - start + 1).drop_last() =~= d.take(i - start));
            assert(d.take(i - start + 1).last() == c);
        }
        let next: u128 = (acc as u128) * 10 + (dv as u128);
        proof {
            let t = d.take(i - start + 1);
            assert(digits_value(t) == digits_value(t.drop_last()) * 10 + digit_value(t.last()));
            assert(digits_value(t) == next);
        }
        if next > max as u128 {
            proof {
                lemma_digits_value_mono(d, i - start + 1);
                if all_digits(d) {
                    assert(digits_value(d) > max);
                }
            }
            return None;
        }
        acc = next as u64;
        i += 1;
        proof {
            assert forall|k: int| 0 <= k < (i - start) implies is_digit(#[trigger] d.take(
                i - start,
            )[k]) by {
                if k < i - start - 1 {
                    assert(d.take(i - start)[k] == d.take(i - start - 1)[k]);
                }
            }
        }
    }
    proof {
        assert(d.take(i - start) =~= d);
    }
    Some(acc)
}

/// `str::parse::<u64>` on a string slice.
pub fn str_parse_u64(s: &str) -> (r: Option<u64>)
    ensures
        r == parse_u64(s@),
{
    let v = chars_of(s);
    assert(v@.subrange(0, v@.len() as int) =~= v@);
    parse_uint_in(v.as_slice(), 0, v.len(), u64::MAX)
}


// ---------------------------------------------------------------------
// Separators, splitting and lines
// ---------------------------------------------------------------------

/// `c` separates pieces: it is one of `seps`, or white space when `ws` holds.
pub open spec fn is_sep(seps: Seq<char>, ws: bool, c: char) -> bool {
    seps.contains(c) || (ws && is_ws(c))
}

pub open spec fn hit(s: Seq<char>, seps: Seq<char>, ws: bool, i: int) -> bool {
    0 <= i < s.len() && is_sep(seps, ws, s[i])
}

/// Index of the first separator in `s`.
#[verifier::opaque]
pub open spec fn first_sep(s: Seq<char>, seps: Seq<char>, ws: bool) -> Option<int> {
    if exists|i: int| hit(s, seps, ws, i) {
        Some(
            choose|i: int|
                hit(s, seps, ws, i) && forall|k: int| 0 <= k < i ==> !hit(s, seps, ws, k),
        )
    } else {
        None
    }
}

pub proof fn lemma_first_sep(s: Seq<char>, seps: Seq<char>, ws: bool, i: int)
    requires
        hit(s, seps, ws, i),
        forall|k: int| 0 <= k < i ==> !hit(s, seps, ws, k),
    ensures
        first_sep(s, seps, ws) == Some(i),
{
    reveal(first_sep);
    let j = choose|j: int|
        hit(s, seps, ws, j) && forall|k: int| 0 <= k < j ==> !hit(s, seps, ws, k);
    assert(hit(s, seps, ws, j) && forall|k: int| 0 <= k < j ==> !hit(s, seps, ws, k));
    if j < i {
        assert(!hit(s, seps, ws, j));
    }
    if i < j {
        assert(!hit(s, seps, ws, i));
    }
}

proof fn lemma_min_hit(s: Seq<char>, seps: Seq<char>, ws: bool, i: int)
    requires
        hit(s, seps, ws, i),
    ensures
        exists|j: int| hit(s, seps, ws, j) && forall|k: int| 0 <= k < j ==> !hit(s, seps, ws, k),
    decreases i,
{
    if exists|k: int| 0 <= k < i && hit(s, seps, ws, k) {
        let k = choose|k: int| 0 <= k < i && hit(s, seps, ws, k);
        lemma_min_hit(s, seps, ws, k);
    } else {
        assert(hit(s, seps, ws, i) && forall|k: int| 0 <= k < i ==> !hit(s, seps, ws, k));
    }
}

pub proof fn lemma_first_sep_some(s: Seq<char>, seps: Seq<char>, ws: bool)
    ensures
        first_sep(s, seps, ws) matches Some(i) ==> hit(s, seps, ws, i) && forall|k: int|
            0 <= k < i ==> !hit(s, seps, ws, k),
        first_sep(s, seps, ws) is None ==> forall|k: int| !hit(s, seps, ws, k),
{
    reveal(first_sep);
    if exists|i: int| hit(s, seps, ws, i) {
        let i = choose|i: int| hit(s, seps, ws, i);
        lemma_min_hit(s, seps, ws, i);
    }
}

/// Executable separator test.
pub fn is_sep_exec(seps: &[char], ws: bool, c: char) -> (r: bool)
    ensures
        r == is_sep(seps@, ws, c),
{
    let mut i: usize = 0;
    while i < seps.len()
        invariant
            i <= seps@.len(),
            forall|k: int| 0 <= k < i ==> seps@[k] != c,
        decreases seps.len() - i,
    {
        if seps[i] == c {
            return true;
        }
        i += 1;
    }
    if ws {
        char_is_ws(c)
    } else {
        false
    }
}

/// First separator of `v[lo..hi]`, as an index of `v`.
pub fn find_sep(v: &[char], lo: usize, hi: usize, seps: &[char], ws: bool) -> (r: Option<usize>)
    requires
        lo <= hi <= v@.len(),
    ensures
        match r {
            Some(i) => lo <= i < hi && first_sep(v@.subrange(lo as int, hi as int), seps@, ws)
                == Some(i - lo),
            None => first_sep(v@.subrange(lo as int, hi as int), seps@, ws) is None,
        },
{
    let ghost s = v@.subrange(lo as int, hi as int);
    let mut i = lo;
    while i < hi
        invariant
            lo <= i <= hi <= v@.len(),
            s == v@.subrange(lo as int, hi as int),
            forall|k: int| 0 <= k < i - lo ==> !hit(s, seps@, ws, k),
        decreases hi - i,
    {
        if is_sep_exec(seps, ws, v[i]) {
            proof {
                assert(hit(s, seps@, ws, i - lo));
                lemma_first_sep(s, seps@, ws, i - lo);
            }
            return Some(i);
        }
        i += 1;
    }
    proof {
        reveal(first_sep);
    }
    None
}

/// `str::split` on a set of separator characters (and/or white space).
pub open spec fn split(s: Seq<char>, seps: Seq<char>, ws: bool) -> Seq<Seq<char>>
    decreases s.len(),
{
    match first_sep(s, seps, ws) {
        Some(i) => if 0 <= i < s.len() {
            seq![s.take(i)] + split(s.skip(i + 1), seps, ws)
        } else {
            seq![s]
        },
        None => seq![s],
    }
}

/// The text pieces named by a sequence of index ranges.
pub open spec fn pieces(v: Seq<char>, r: Seq<(usize, usize)>) -> Seq<Seq<char>> {
    r.map_values(|x: (usize, usize)| v.subrange(x.0 as int, x.1 as int))
}

pub open spec fn ranges_within(r: Seq<(usize, usize)>, lo: int, hi: int) -> bool {
    forall|k: int| 0 <= k < r.len() ==> lo <= (#[trigger] r[k]).0 <= r[k].1 <= hi
}

proof fn lemma_split_step(v: Seq<char>, p: int, j: int, hi: int, seps: Seq<char>, ws: bool)
    requires
        0 <= p <= j < hi <= v.len(),
        first_sep(v.subrange(p, hi), seps, ws) == Some(j - p),
    ensures
        split(v.subrange(p, hi), seps, ws) == seq![v.subrange(p, j)] + split(
            v.subrange(j + 1, hi),
            seps,
            ws,
        ),
{
    let t = v.subrange(p, hi);
    assert(t.take(j - p) =~= v.subrange(p, j));
    assert(t.skip(j - p + 1) =~= v.subrange(j + 1, hi));
}

proof fn lemma_pieces_push(v: Seq<char>, r: Seq<(usize, usize)>, x: (usize, usize))
    ensures
        pieces(v, r.push(x)) == pieces(v, r).push(v.subrange(x.0 as int, x.1 as int)),
{
    assert(pieces(v, r.push(x)) =~= pieces(v, r).push(v.subrange(x.0 as int, x.1 as int)));
}

/// Ranges of the pieces of `v[lo..hi]` split at separators.
pub fn split_ranges(v: &[char], lo: usize, hi: usize, seps: &[char], ws: bool) -> (r: Vec<
    (usize, usize),
>)
    requires
        lo <= hi <= v@.len(),
    ensures
        pieces(v@, r@) == split(v@.subrange(lo as int, hi as int), seps@, ws),
        ranges_within(r@, lo as int, hi as int),
{
    let mut r: Vec<(usize, usize)> = Vec::new();
    let mut p = lo;
    loop
        invariant
            lo <= p <= hi <= v@.len(),
            pieces(v@, r@) + split(v@.subrange(p as int, hi as int), seps@, ws) == split(
                v@.subrange(lo as int, hi as int),
                seps@,
                ws,
            ),
            ranges_within(r@, lo as int, hi as int),
        decreases hi - p,
    {
        let ghost t = v@.subrange(p as int, hi as int);
        let ghost old_r = r@;
        match find_sep(v, p, hi, seps, ws) {
            Some(j) => {
                r.push((p, j));
                proof {
                    lemma_split_step(v@, p as int, j as int, hi as int, seps@, ws);
                    lemma_pieces_push(v@, old_r, (p, j));
                    assert(pieces(v@, r@) + split(v@.subrange(j + 1, hi as int), seps@, ws) =~= pieces(v@, old_r) + split(t, seps@, ws));
                }
                p = j + 1;
            },
            None => {
                r.push((p, hi));
                proof {
                    lemma_pieces_push(v@, old_r, (p, hi));
                    assert(split(t, seps@, ws) == seq![t]);
                    assert(pieces(v@, r@) =~= pieces(v@, old_r) + split(t, seps@, ws));
                }
                return r;
            },
        }
    }
}

/// A line without its trailing carriage return.
pub open spec fn strip_cr(l: Seq<char>) -> Seq<char> {
    if l.len() > 0 && l.last() == '\r' {
        l.drop_last()
    } else {
        l
    }
}

/// `str::lines`: pieces ended by `\n` (a `\r` just before it is dropped);
/// a final empty piece is not a line.
pub open spec fn lines(s: Seq<char>) -> Seq<Seq<char>>
    decreases s.len(),
{
    if s.len() == 0 {
        seq![]
    } else {
        match first_sep(s, seq!['\n'], false) {
            Some(i) => if 0 <= i < s.len() {
                seq![strip_cr(s.take(i))] + lines(s.skip(i + 1))
            } else {
                seq![s]
            },
            None => seq![s],
        }
    }
}

proof fn lemma_lines_step(v: Seq<char>, p: int, j: int, e: int, hi: int)
    requires
        0 <= p <= j < hi <= v.len(),
        first_sep(v.subrange(p, hi), seq!['\n'], false) == Some(j - p),
        e == (if j > p && v[j - 1] == '\r' {
            j - 1
        } else {
            j
        }),
    ensures
        lines(v.subrange(p, hi)) == seq![v.subrange(p, e)] + lines(v.subrange(j + 1, hi)),
{
    let t = v.subrange(p, hi);
    assert(strip_cr(t.take(j - p)) =~= v.subrange(p, e));
    assert(t.skip(j - p + 1) =~= v.subrange(j + 1, hi));
}

/// Ranges of the lines of `v[lo..hi]`.
pub fn line_ranges(v: &[char], lo: usize, hi: usize) -> (r: Vec<(usize, usize)>)
    requires
        lo <= hi <= v@.len(),
    ensures
        pieces(v@, r@) == lines(v@.subrange(lo as int, hi as int)),
        ranges_within(r@, lo as int, hi as int),
{
    let nl: [char; 1] = ['\n'];
    let ghost seps = nl@;
    assert(seps =~= seq!['\n']);
    let mut r: Vec<(usize, usize)> = Vec::new();
    let mut p = lo;
    while p < hi
        invariant
            lo <= p <= hi <= v@.len(),
            seps == nl@,
            seps == seq!['\n'],
            pieces(v@, r@) + lines(v@.subrange(p as int, hi as int)) == lines(
                v@.subrange(lo as int, hi as int),
            ),
            ranges_within(r@, lo as int, hi as int),
        decreases hi - p,
    {
        let ghost t = v@.subrange(p as int, hi as int);
        let ghost old_r = r@;
        match find_sep(v, p, hi, nl.as_slice(), false) {
            Some(j) => {
                let e = if j > p && v[j - 1] == '\r' {
                    j - 1
                } else {
                    j
                };
                r.push((p, e));
                proof {
                    lemma_lines_step(v@, p as int, j as int, e as int, hi as int);
                    lemma_pieces_push(v@, old_r, (p, e));
                    assert(pieces(v@, r@) + lines(v@.subrange(j + 1, hi as int)) =~= pieces(v@, old_r) + lines(t));
                }
                p = j + 1;
            },
            None => {
                r.push((p, hi));
                proof {
                    lemma_pieces_push(v@, old_r, (p, hi));
                    assert(lines(t) == seq![t]);
                    assert(lines(v@.subrange(hi as int, hi as int)) =~= Seq::<Seq<char>>::empty());
                    assert(pieces(v@, r@) + lines(v@.subrange(hi as int, hi as int)) =~= pieces(v@, old_r) + lines(t));
                }
                p = hi;
            },
        }
    }
    proof {
        assert(lines(v@.subrange(p as int, hi as int)) =~= Seq::<Seq<char>>::empty());
        assert(pieces(v@, r@) + lines(v@.subrange(p as int, hi as int)) =~= pieces(v@, r@));
    }
    r
}


// ---------------------------------------------------------------------
// Lists of strings
// ---------------------------------------------------------------------

/// The views of a list of strings.
pub open spec fn str_views(v: Seq<String>) -> Seq<Seq<char>> {
    v.map_values(|s: String| s@)
}

/// `str::replace` of one character by another.
pub fn replace_char(s: &str, from: char, to: char) -> (r: String)
    ensures
        r@ == s@.map_values(|c: char| if c == from { to } else { c }),
{
    let v = chars_of(s);
    let mut out = String::new();
    let mut i: usize = 0;
    while i < v.len()
        invariant
            i <= v@.len(),
            v@ == s@,
            out@ == s@.take(i as int).map_values(|c: char| if c == from { to } else { c }),
        decreases v.len() - i,
    {
        let c = v[i];
        push_char(&mut out, if c == from { to } else { c });
        i += 1;
        assert(out@ =~= s@.take(i as int).map_values(|c: char| if c == from { to } else { c }));
    }
    assert(s@.take(v@.len() as int) =~= s@);
    out
}

/// `str::replace` for a non-empty pattern: every occurrence, left to right
/// and not overlapping, replaced by `t`.
pub open spec fn replace_all(s: Seq<char>, p: Seq<char>, t: Seq<char>) -> Seq<char>
    decreases s.len(),
{
    if p.len() == 0 {
        s
    } else {
        match find(s, p) {
            Some(i) => if 0 <= i && i + p.len() <= s.len() {
                s.take(i) + t + replace_all(s.skip(i + p.len()), p, t)
            } else {
                s
            },
            None => s,
        }
    }
}

/// `str::replace` with a non-empty pattern.
pub fn replace_str(s: &str, p: &str, t: &str) -> (r: String)
    requires
        p@.len() > 0,
    ensures
        r@ == replace_all(s@, p@, t@),
{
    let v = chars_of(s);
    let pv = chars_of(p);
    let mut out = String::new();
    let mut pos: usize = 0;
    assert(v@.subrange(0, v@.len() as int) =~= v@);
    while pos < v.len()
        invariant
            pos <= v@.len(),
            v@ == s@,
            pv@ == p@,
            p@.len() > 0,
            out@ + replace_all(v@.subrange(pos as int, v@.len() as int), p@, t@) == replace_all(s@, p@, t@),
        decreases v.len() - pos,
    {
        let ghost rest = v@.subrange(pos as int, v@.len() as int);
        match find_in(v.as_slice(), pos, v.len(), pv.as_slice()) {
            Some(i) => {
                let ghost o0 = out@;
                let piece = string_of(v.as_slice(), pos, i);
                push_str(&mut out, piece.as_str());
                push_str(&mut out, t);
                proof {
                    assert(rest.take(i - pos) =~= v@.subrange(pos as int, i as int));
                    assert(rest.skip(i - pos + p@.len()) =~= v@.subrange(i + pv@.len(), v@.len() as int));
                    assert(o0 + replace_all(rest, p@, t@) =~= out@ + replace_all(v@.subrange(i + pv@.len(), v@.len() as int), p@, t@));
                }
                pos = i + pv.len();
            },
            None => {
                let piece = string_of(v.as_slice(), pos, v.len());
                let ghost o0 = out@;
                push_str(&mut out, piece.as_str());
                proof {
                    assert(replace_all(rest, p@, t@) == rest);
                    assert(replace_all(v@.subrange(v@.len() as int, v@.len() as int), p@, t@) =~= Seq::<char>::empty());
                    assert(out@ + replace_all(v@.subrange(v@.len() as int, v@.len() as int), p@, t@) =~= o0 + rest);
                }
                pos = v.len();
            },
        }
    }
    proof {
        assert(replace_all(v@.subrange(pos as int, v@.len() as int), p@, t@) =~= Seq::<char>::empty());
        assert(out@ + Seq::<char>::empty() =~= out@);
    }
    out
}

/// Position of the first string equal to `s`.
pub fn position_of_str(v: &Vec<String>, s: &str) -> (r: Option<usize>)
    ensures
        match r {
            Some(j) => j < v@.len() && v@[j as int]@ == s@ && forall|i: int| 0 <= i < j ==> v@[i]@ != s@,
            None => forall|i: int| 0 <= i < v@.len() ==> v@[i]@ != s@,
        },
{
    let mut j: usize = 0;
    while j < v.len()
        invariant
            j <= v@.len(),
            forall|i: int| 0 <= i < j ==> v@[i]@ != s@,
        decreases v.len() - j,
    {
        if str_eq(v[j].as_str(), s) {
            return Some(j);
        }
        j += 1;
    }
    None
}

/// Whether the list holds a string equal to `s`.
pub fn vec_contains_str(v: &Vec<String>, s: &str) -> (r: bool)
    ensures
        r == str_views(v@).contains(s@),
{
    let sv = chars_of(s);
    let mut i: usize = 0;
    while i < v.len()
        invariant
            i <= v@.len(),
            sv@ == s@,
            forall|j: int| 0 <= j < i ==> v@[j]@ != s@,
        decreases v.len() - i,
    {
        let ev = chars_of(v[i].as_str());
        if chars_eq(ev.as_slice(), sv.as_slice()) {
            proof {
                assert(str_views(v@)[i as int] == s@);
            }
            return true;
        }
        i += 1;
    }
    proof {
        assert forall|j: int| 0 <= j < str_views(v@).len() implies str_views(v@)[j] != s@ by {
            assert(str_views(v@)[j] == v@[j]@);
        }
    }
    false
}

/// Whether the list holds a string equal to `s` up to ASCII case.
pub fn vec_contains_ignore_case(v: &Vec<String>, s: &str) -> (r: bool)
    ensures
        r == exists|j: int| 0 <= j < v@.len() && eq_ignore_case(#[trigger] v@[j]@, s@),
{
    let mut i: usize = 0;
    while i < v.len()
        invariant
            i <= v@.len(),
            forall|j: int| 0 <= j < i ==> !eq_ignore_case(#[trigger] v@[j]@, s@),
        decreases v.len() - i,
    {
        if str_eq_ignore_case(v[i].as_str(), s) {
            return true;
        }
        i += 1;
    }
    false
}

/// A copy of a list of strings.
pub fn clone_strings(v: &Vec<String>) -> (r: Vec<String>)
    ensures
        str_views(r@) == str_views(v@),
{
    let mut r: Vec<String> = Vec::new();
    let mut i: usize = 0;
    while i < v.len()
        invariant
            i <= v@.len(),
            str_views(r@) == str_views(v@).take(i as int),
        decreases v.len() - i,
    {
        r.push(string_from_str(v[i].as_str()));
        proof {
            assert(str_views(v@).take(i + 1) =~= str_views(v@).take(i as int).push(v@[i as int]@));
        }
        i += 1;
        assert(str_views(r@) =~= str_views(v@).take(i as int));
    }
    assert(str_views(v@).take(v@.len() as int) =~= str_views(v@));
    r
}

/// `pieces` joined with `sep` between neighbours.
pub open spec fn join(ps: Seq<Seq<char>>, sep: Seq<char>) -> Seq<char>
    decreases ps.len(),
{
    if ps.len() == 0 {
        seq![]
    } else if ps.len() == 1 {
        ps[0]
    } else {
        join(ps.drop_last(), sep) + sep + ps.last()
    }
}


// ---------------------------------------------------------------------
// Unicode case and classes from the standard library
// ---------------------------------------------------------------------

/// What `char::to_uppercase` yields for `c` (Unicode case mapping).
pub uninterp spec fn upper_case_of(c: char) -> Seq<char>;

/// Whether `char::is_alphanumeric` holds of `c` (Unicode Alphabetic or Numeric).
pub uninterp spec fn alphanumeric(c: char) -> bool;

/// `char::to_uppercase`, collected into a string. Besides naming the result,
/// the contract states only the ASCII case, where the documented mapping is
/// the single character `A`–`Z` for `a`–`z` and the character itself otherwise.
#[verifier::external_body]
pub(crate) fn char_to_uppercase(c: char) -> (r: String)
    ensures
        r@ == upper_case_of(c),
        (c as u32) < 128 ==> r@ == seq![upper(c)],
{
    c.to_uppercase().collect::<String>()
}

/// `char::is_alphanumeric`. Besides naming the result, the contract states
/// only the ASCII case: exactly the letters and digits are alphanumeric.
#[verifier::external_body]
pub(crate) fn char_is_alphanumeric(c: char) -> (b: bool)
    ensures
        b == alphanumeric(c),
        (c as u32) < 128 ==> (b <==> is_ascii_alnum(c)),
{
    c.is_alphanumeric()
}

/// A word with its first character upper-cased.
pub open spec fn title_word(p: Seq<char>) -> Seq<char> {
    if p.len() == 0 {
        seq![]
    } else {
        upper_case_of(p[0]) + p.drop_first()
    }
}

/// The title-cased words of an identifier split at `_` and `-`, joined by spaces.
pub open spec fn title_case(id: Seq<char>) -> Seq<char> {
    join(split(id, seq!['_', '-'], false).map_values(|p: Seq<char>| title_word(p)), seq![' '])
}

pub proof fn lemma_join_push(ps: Seq<Seq<char>>, x: Seq<char>, sep: Seq<char>)
    ensures
        join(ps.push(x), sep) == if ps.len() == 0 {
            x
        } else {
            join(ps, sep) + sep + x
        },
{
    assert(ps.push(x).drop_last() =~= ps);
}

/// Title case of an identifier: each piece between `_` and `-` gets its first
/// character upper-cased, and the pieces are joined by spaces.
pub fn title_case_exec(id: &str) -> (r: String)
    ensures
        r@ == title_case(id@),
{
    let v = chars_of(id);
    let seps = vec!['_', '-'];
    assert(seps@ =~= seq!['_', '-']);
    let rs = split_ranges(v.as_slice(), 0, v.len(), seps.as_slice(), false);
    assert(v@.subrange(0, v@.len() as int) =~= v@);
    let ghost words = pieces(v@, rs@).map_values(|p: Seq<char>| title_word(p));
    let mut out = String::new();
    let mut k: usize = 0;
    while k < rs.len()
        invariant
            k <= rs@.len(),
            ranges_within(rs@, 0, v@.len() as int),
            words == pieces(v@, rs@).map_values(|p: Seq<char>| title_word(p)),
            out@ == join(words.take(k as int), seq![' ']),
        decreases rs.len() - k,
    {
        let (a, b) = rs[k];
        let ghost before = out@;
        if k > 0 {
            push_char(&mut out, ' ');
        }
        if a < b {
            let up = char_to_uppercase(v[a]);
            push_str(&mut out, up.as_str());
            let mut i = a + 1;
            while i < b
                invariant
                    a < i <= b <= v@.len(),
                    out@ == (if k > 0 { before + seq![' '] } else { before }) + upper_case_of(
                        v@[a as int],
                    ) + v@.subrange(a + 1, i as int),
                decreases b - i,
            {
                push_char(&mut out, v[i]);
                i += 1;
                assert(v@.subrange(a + 1, i as int) =~= v@.subrange(a + 1, i - 1).push(v@[i - 1]));
            }
        }
        proof {
            let w = v@.subrange(a as int, b as int);
            assert(pieces(v@, rs@)[k as int] == w);
            if a < b {
                assert(w.drop_first() =~= v@.subrange(a + 1, b as int));
            }
            assert(words[k as int] == title_word(w));
            assert(words.take(k + 1) =~= words.take(k as int).push(words[k as int]));
            lemma_join_push(words.take(k as int), words[k as int], seq![' ']);
            assert(out@ =~= join(words.take(k + 1), seq![' ']));
        }
        k += 1;
    }
    assert(words.take(rs@.len() as int) =~= words);
    out
}


/// `str::to_lowercase`: full Unicode lower-casing.
pub uninterp spec fn lowercase_of(s: Seq<char>) -> Seq<char>;

/// `str::to_lowercase`. Besides naming the result, the contract states the
/// ASCII case, where the documented mapping lowers `A`–`Z` one for one.
#[verifier::external_body]
pub(crate) fn str_to_lowercase(s: &str) -> (r: String)
    ensures
        r@ == lowercase_of(s@),
        (forall|i: int| 0 <= i < s@.len() ==> (s@[i] as u32) < 128) ==> r@ == lower_seq(s@),
{
    s.to_lowercase()
}

/// `str::trim_end_matches` with a string pattern: every trailing copy of `p` removed.
pub open spec fn strip_suffixes(s: Seq<char>, p: Seq<char>) -> Seq<char>
    decreases s.len(),
{
    if p.len() > 0 && ends_with(s, p) {
        strip_suffixes(s.take(s.len() - p.len()), p)
    } else {
        s
    }
}

/// End of `strip_suffixes(v[lo..hi], p)` within `v`.
pub fn strip_suffixes_end(v: &[char], lo: usize, hi: usize, p: &[char]) -> (e: usize)
    requires
        lo <= hi <= v@.len(),
    ensures
        lo <= e <= hi,
        v@.subrange(lo as int, e as int) == strip_suffixes(v@.subrange(lo as int, hi as int), p@),
{
    let mut e = hi;
    while p.len() > 0 && ends_with_in(v, lo, e, p)
        invariant
            lo <= e <= hi <= v@.len(),
            strip_suffixes(v@.subrange(lo as int, e as int), p@) == strip_suffixes(v@.subrange(lo as int, hi as int), p@),
        decreases e,
    {
        let ghost s = v@.subrange(lo as int, e as int);
        e = e - p.len();
        assert(s.take(s.len() - p@.len()) =~= v@.subrange(lo as int, e as int));
    }
    e
}

/// What `format!("{:?}", s)` prints for a string: quoted, with escapes.
pub uninterp spec fn debug_quoted(s: Seq<char>) -> Seq<char>;

/// `format!("{:?}", s)` for a string slice.
#[verifier::external_body]
pub(crate) fn debug_str(s: &str) -> (r: String)
    ensures
        r@ == debug_quoted(s@),
{
    format!("{:?}", s)
}

/// What `format!("{:?}", v)` prints for a list of strings.
pub open spec fn debug_list(v: Seq<Seq<char>>) -> Seq<char> {
    "["@ + join(v.map_values(|x: Seq<char>| debug_quoted(x)), ", "@) + "]"@
}

/// `format!("{:?}", v)` for a list of strings, item by item.
pub fn debug_list_exec(v: &Vec<String>) -> (r: String)
    ensures
        r@ == debug_list(str_views(v@)),
{
    let ghost qs = str_views(v@).map_values(|x: Seq<char>| debug_quoted(x));
    let mut body = String::new();
    let mut i: usize = 0;
    assert(qs.take(0) =~= Seq::<Seq<char>>::empty());
    while i < v.len()
        invariant
            i <= v@.len(),
            qs == str_views(v@).map_values(|x: Seq<char>| debug_quoted(x)),
            body@ == join(qs.take(i as int), ", "@),
        decreases v.len() - i,
    {
        if i > 0 {
            push_str(&mut body, ", ");
        }
        let d = debug_str(v[i].as_str());
        push_str(&mut body, d.as_str());
        proof {
            assert(qs[i as int] == debug_quoted(v@[i as int]@));
            assert(qs.take(i + 1) =~= qs.take(i as int).push(qs[i as int]));
            lemma_join_push(qs.take(i as int), qs[i as int], ", "@);
        }
        i += 1;
    }
    assert(qs.take(v@.len() as int) =~= qs);
    let mut r = string_from_str("[");
    push_str(&mut r, body.as_str());
    push_str(&mut r, "]");
    r
}

/// An optional string taken by view.
pub open spec fn opt_string_view(o: Option<String>) -> Option<Seq<char>> {
    match o {
        Some(s) => Some(s@),
        None => None,
    }
}

/// A copy of an optional string.
pub fn clone_opt_string(o: &Option<String>) -> (r: Option<String>)
    ensures
        opt_string_view(r) == opt_string_view(*o),
{
    match o {
        Some(s) => Some(string_from_str(s.as_str())),
        None => None,
    }
}

/// The names in order of first appearance, each once.
pub open spec fn distinct_ids(s: Seq<Seq<char>>) -> Seq<Seq<char>>
    decreases s.len(),
{
    if s.len() == 0 {
        seq![]
    } else {
        let p = distinct_ids(s.drop_last());
        if p.contains(s.last()) {
            p
        } else {
            p.push(s.last())
        }
    }
}

/// Appends the names of `src` not listed yet.
pub fn push_distinct(out: &mut Vec<String>, src: &Vec<String>)
    ensures
        str_views(final(out)@) == distinct_ids_from(str_views(old(out)@), str_views(src@)),
{
    let ghost o0 = str_views(out@);
    let ghost sv = str_views(src@);
    let mut i: usize = 0;
    assert(sv.take(0) =~= Seq::<Seq<char>>::empty());
    while i < src.len()
        invariant
            i <= src@.len(),
            sv == str_views(src@),
            o0 == str_views(old(out)@),
            str_views(out@) == distinct_ids_from(o0, sv.take(i as int)),
        decreases src.len() - i,
    {
        proof {
            assert(sv.take(i + 1).drop_last() =~= sv.take(i as int));
            assert(sv.take(i + 1).last() == src@[i as int]@);
        }
        if !vec_contains_str(out, src[i].as_str()) {
            let ghost before = str_views(out@);
            out.push(string_from_str(src[i].as_str()));
            assert(str_views(out@) =~= before.push(src@[i as int]@));
        }
        i += 1;
    }
    assert(sv.take(src@.len() as int) =~= sv);
}

/// `distinct_ids` continued from a list already free of repeats.
pub open spec fn distinct_ids_from(start: Seq<Seq<char>>, s: Seq<Seq<char>>) -> Seq<Seq<char>>
    decreases s.len(),
{
    if s.len() == 0 {
        start
    } else {
        let p = distinct_ids_from(start, s.drop_last());
        if p.contains(s.last()) {
            p
        } else {
            p.push(s.last())
        }
    }
}

pub proof fn lemma_distinct_from_empty(s: Seq<Seq<char>>)
    ensures
        distinct_ids_from(seq![], s) == distinct_ids(s),
    decreases s.len(),
{
    if s.len() > 0 {
        lemma_distinct_from_empty(s.drop_last());
    }
}

pub proof fn lemma_distinct_from_concat(a: Seq<Seq<char>>, b: Seq<Seq<char>>)
    ensures
        distinct_ids_from(distinct_ids(a), b) == distinct_ids(a + b),
    decreases b.len(),
{
    if b.len() == 0 {
        assert(a + b =~= a);
    } else {
        lemma_distinct_from_concat(a, b.drop_last());
        assert((a + b).drop_last() =~= a + b.drop_last());
        assert((a + b).last() == b.last());
    }
}

pub proof fn lemma_distinct_contains(s: Seq<Seq<char>>, y: Seq<char>)
    ensures
        distinct_ids(s).contains(y) <==> s.contains(y),
    decreases s.len(),
{
    if s.len() > 0 {
        lemma_distinct_contains(s.drop_last(), y);
        let p = distinct_ids(s.drop_last());
        if s.contains(y) && !s.drop_last().contains(y) {
            let i = choose|i: int| 0 <= i < s.len() && s[i] == y;
            if i < s.len() - 1 {
                assert(s.drop_last()[i] == y);
            }
            if !p.contains(y) {
                assert(p.push(y)[p.len() as int] == y);
            }
        }
        if s.drop_last().contains(y) {
            let i = choose|i: int| 0 <= i < s.drop_last().len() && s.drop_last()[i] == y;
            assert(s[i] == y);
            let j = choose|j: int| 0 <= j < p.len() && p[j] == y;
            if !p.contains(s.last()) {
                assert(p.push(s.last())[j] == y);
            }
        }
        if distinct_ids(s).contains(y) && !p.contains(y) {
            assert(s[s.len() - 1] == y);
        }
    }
}

/// The list holds a string equal to `n` up to ASCII case.
pub open spec fn any_ic(v: Seq<Seq<char>>, n: Seq<char>) -> bool {
    exists|j: int| 0 <= j < v.len() && eq_ignore_case(#[trigger] v[j], n)
}

pub proof fn lemma_any_ic_views(v: Seq<String>, n: Seq<char>)
    ensures
        any_ic(str_views(v), n) == exists|j: int| 0 <= j < v.len() && eq_ignore_case(#[trigger] v[j]@, n),
{
    if any_ic(str_views(v), n) {
        let j = choose|j: int| 0 <= j < str_views(v).len() && eq_ignore_case(#[trigger] str_views(v)[j], n);
        assert(eq_ignore_case(v[j]@, n));
    }
    if exists|j: int| 0 <= j < v.len() && eq_ignore_case(#[trigger] v[j]@, n) {
        let j = choose|j: int| 0 <= j < v.len() && eq_ignore_case(#[trigger] v[j]@, n);
        assert(eq_ignore_case(str_views(v)[j], n));
    }
}

/// Keeps the strings not equal to `n` up to ASCII case.
pub open spec fn not_ic(n: Seq<char>) -> spec_fn(Seq<char>) -> bool {
    |i: Seq<char>| !eq_ignore_case(i, n)
}

/// The strings of `v` not equal to `n` up to ASCII case (`Vec::retain`).
pub fn retain_not_ic(v: &Vec<String>, n: &str) -> (r: Vec<String>)
    ensures
        str_views(r@) == str_views(v@).filter(not_ic(n@)),
{
    let ghost p = not_ic(n@);
    let ghost sv = str_views(v@);
    let mut r: Vec<String> = Vec::new();
    let mut k: usize = 0;
    proof {
        reveal(Seq::filter);
        assert(sv.take(0) =~= Seq::<Seq<char>>::empty());
        assert(str_views(r@) =~= sv.take(0).filter(p));
    }
    while k < v.len()
        invariant
            k <= v@.len(),
            sv == str_views(v@),
            p == not_ic(n@),
            str_views(r@) == sv.take(k as int).filter(p),
        decreases v.len() - k,
    {
        let keep = !str_eq_ignore_case(v[k].as_str(), n);
        proof {
            assert(sv.take(k + 1) =~= sv.take(k as int).push(v@[k as int]@));
            sv.take(k as int).lemma_filter_push(v@[k as int]@, p);
        }
        if keep {
            let ghost r0 = str_views(r@);
            r.push(string_from_str(v[k].as_str()));
            assert(str_views(r@) =~= r0.push(v@[k as int]@));
        }
        k += 1;
    }
    assert(sv.take(v@.len() as int) =~= sv);
    r
}

// ---------------------------------------------------------------------
// First matches, stripping characters, words
// ---------------------------------------------------------------------

/// The index of the first element that `p` accepts; the length when none.
pub open spec fn first_where<A>(s: Seq<A>, p: spec_fn(A) -> bool) -> int
    decreases s.len(),
{
    if s.len() == 0 {
        0
    } else if p(s[0]) {
        0
    } else {
        1 + first_where(s.drop_first(), p)
    }
}

pub proof fn lemma_first_where<A>(s: Seq<A>, p: spec_fn(A) -> bool, k: int)
    requires
        0 <= k <= s.len(),
        forall|j: int| 0 <= j < k ==> !p(#[trigger] s[j]),
        k < s.len() ==> p(s[k]),
    ensures
        first_where(s, p) == k,
    decreases k,
{
    if k > 0 {
        assert forall|j: int| 0 <= j < k - 1 implies !p(#[trigger] s.drop_first()[j]) by {
            assert(s.drop_first()[j] == s[j + 1]);
        }
        if k < s.len() {
            assert(s.drop_first()[k - 1] == s[k]);
        }
        lemma_first_where(s.drop_first(), p, k - 1);
    }
}

pub proof fn lemma_first_where_range<A>(s: Seq<A>, p: spec_fn(A) -> bool)
    ensures
        0 <= first_where(s, p) <= s.len(),
    decreases s.len(),
{
    if s.len() > 0 && !p(s[0]) {
        lemma_first_where_range(s.drop_first(), p);
    }
}

/// `str::trim_start_matches` with one character: every leading copy removed.
pub open spec fn strip_leading(s: Seq<char>, c: char) -> Seq<char>
    decreases s.len(),
{
    if s.len() > 0 && s[0] == c {
        strip_leading(s.drop_first(), c)
    } else {
        s
    }
}

pub fn strip_leading_exec(s: &str, c: char) -> (r: String)
    ensures
        r@ == strip_leading(s@, c),
{
    let v = chars_of(s);
    let mut i: usize = 0;
    assert(v@.skip(0) =~= v@);
    while i < v.len() && v[i] == c
        invariant
            i <= v@.len(),
            strip_leading(v@.skip(i as int), c) == strip_leading(s@, c),
            v@ == s@,
        decreases v.len() - i,
    {
        assert(v@.skip(i as int).drop_first() =~= v@.skip(i + 1));
        i += 1;
    }
    string_of(v.as_slice(), i, v.len())
}

/// `str::trim_end_matches` with one character: every trailing copy removed.
pub open spec fn strip_trailing(s: Seq<char>, c: char) -> Seq<char>
    decreases s.len(),
{
    if s.len() > 0 && s.last() == c {
        strip_trailing(s.drop_last(), c)
    } else {
        s
    }
}

/// `str::trim_matches` with one character: every leading and trailing copy
/// removed.
pub open spec fn strip_char(s: Seq<char>, c: char) -> Seq<char> {
    strip_trailing(strip_leading(s, c), c)
}

/// `str::trim_matches` with one character.
pub fn strip_char_exec(s: &str, c: char) -> (r: String)
    ensures
        r@ == strip_char(s@, c),
{
    let t = strip_leading_exec(s, c);
    let v = chars_of(t.as_str());
    let mut e: usize = v.len();
    assert(v@.take(e as int) =~= v@);
    while e > 0 && v[e - 1] == c
        invariant
            e <= v@.len(),
            v@ == t@,
            strip_trailing(v@.take(e as int), c) == strip_trailing(t@, c),
        decreases e,
    {
        assert(v@.take(e as int).drop_last() =~= v@.take(e - 1));
        e -= 1;
    }
    string_of(v.as_slice(), 0, e)
}

/// `str::split_whitespace`: the non-empty pieces between white space.
pub open spec fn words(s: Seq<char>) -> Seq<Seq<char>> {
    split(s, seq![], true).filter(|w: Seq<char>| w.len() > 0)
}

/// `str::split_whitespace`.
pub fn str_words(s: &str) -> (r: Vec<String>)
    ensures
        str_views(r@) == words(s@),
{
    let v = chars_of(s);
    let none: [char; 0] = [];
    assert(none@ =~= Seq::<char>::empty());
    let rs = split_ranges(v.as_slice(), 0, v.len(), none.as_slice(), true);
    assert(v@.subrange(0, v@.len() as int) =~= v@);
    let ghost ps = pieces(v@, rs@);
    let ghost pred = |w: Seq<char>| w.len() > 0;
    let mut out: Vec<String> = Vec::new();
    let mut i: usize = 0;
    proof {
        reveal(Seq::filter);
        assert(ps.take(0) =~= Seq::<Seq<char>>::empty());
        assert(str_views(out@) =~= ps.take(0).filter(pred));
    }
    while i < rs.len()
        invariant
            i <= rs@.len(),
            v@ == s@,
            ps == pieces(v@, rs@),
            ps == split(s@, seq![], true),
            pred == (|w: Seq<char>| w.len() > 0),
            ranges_within(rs@, 0, v@.len() as int),
            str_views(out@) == ps.take(i as int).filter(pred),
        decreases rs.len() - i,
    {
        let (a, b) = rs[i];
        proof {
            assert(0 <= rs@[i as int].0 <= rs@[i as int].1 <= v@.len());
            assert(ps[i as int] == v@.subrange(a as int, b as int));
            assert(ps.take(i + 1) =~= ps.take(i as int).push(ps[i as int]));
            ps.take(i as int).lemma_filter_push(ps[i as int], pred);
        }
        if b > a {
            let ghost o0 = str_views(out@);
            out.push(string_of(v.as_slice(), a, b));
            assert(str_views(out@) =~= o0.push(ps[i as int]));
        }
        i += 1;
    }
    assert(ps.take(rs@.len() as int) =~= ps);
    out
}

} // verus!
