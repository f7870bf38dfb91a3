//! Reading attributes out of a binary `AndroidManifest.xml`.

use vstd::prelude::*;
use crate::text::{
    chars_of, dec, line_ranges, lines, pieces, push_dec, ranges_within, split, split_ranges,
    starts_with, starts_with_in, str_eq, string_from_str, string_of, str_trim, trim,
};

verus! {

// ---------------------------------------------------------------------
// Little-endian numbers
// ---------------------------------------------------------------------

/// The little-endian 16-bit number at `i`.
pub open spec fn le16(d: Seq<u8>, i: int) -> int {
    d[i] as int + d[i + 1] as int * 256
}

/// The little-endian 32-bit number at `i`.
pub open spec fn le32(d: Seq<u8>, i: int) -> int {
    d[i] as int + d[i + 1] as int * 256 + d[i + 2] as int * 65536 + d[i + 3] as int * 16777216
}

pub fn read_u16(d: &[u8], i: usize) -> (r: u16)
    requires
        i + 2 <= d@.len(),
    ensures
        r as int == le16(d@, i as int),
{
    d[i] as u16 + (d[i + 1] as u16) * 256
}

pub fn read_u32(d: &[u8], i: usize) -> (r: u32)
    requires
        i + 4 <= d@.len(),
    ensures
        r as int == le32(d@, i as int),
{
    d[i] as u32 + (d[i + 1] as u32) * 256 + (d[i + 2] as u32) * 65536 + (d[i + 3] as u32) * 16777216
}

// ---------------------------------------------------------------------
// The string pool
// ---------------------------------------------------------------------

/// `String::from_utf8_lossy`: the bytes decoded as UTF-8, each invalid
/// sequence replaced by U+FFFD.
pub uninterp spec fn utf8_lossy(bytes: Seq<u8>) -> Seq<char>;

/// `String::from_utf16_lossy`: the code units decoded as UTF-16, each
/// unpaired surrogate replaced by U+FFFD.
pub uninterp spec fn utf16_lossy(units: Seq<u16>) -> Seq<char>;

/// `String::from_utf8_lossy`, owned. Besides naming the result, the
/// contract states the ASCII case: valid UTF-8 comes back unchanged, so
/// ASCII bytes decode to the characters with the same codes.
#[verifier::external_body]
pub(crate) fn decode_utf8_lossy(bytes: &[u8]) -> (r: String)
    ensures
        r@ == utf8_lossy(bytes@),
        (forall|i: int| 0 <= i < bytes@.len() ==> #[trigger] bytes@[i] < 128) ==> r@ == bytes@.map_values(|b: u8| b as char),
{
    String::from_utf8_lossy(bytes).to_string()
}

/// `String::from_utf16_lossy`.
#[verifier::external_body]
fn decode_utf16_lossy(units: &[u16]) -> (r: String)
    ensures
        r@ == utf16_lossy(units@),
{
    String::from_utf16_lossy(units)
}

/// Little-endian 16-bit code units of a byte string of even length.
pub open spec fn units_of(b: Seq<u8>) -> Seq<u16> {
    Seq::new(b.len() / 2, |k: int| le16(b, 2 * k) as u16)
}

/// The string stored at `idx` of the pool: UTF-8 (a UTF-16 length, then a
/// byte length, each one or two bytes) or UTF-16 (a length of one or two
/// units); empty where the data ends too early.
pub open spec fn pool_string(d: Seq<u8>, idx: int, utf8: bool) -> Seq<char> {
    if idx < 0 || idx >= d.len() {
        seq![]
    } else if utf8 {
        let i1 = idx + 1;
        let i2 = if d[idx] & 0x80u8 != 0 && i1 < d.len() {
            i1 + 1
        } else {
            i1
        };
        if i2 >= d.len() {
            seq![]
        } else {
            let l0 = d[i2];
            let i3 = i2 + 1;
            let long = l0 & 0x80u8 != 0 && i3 < d.len();
            let len: int = if long {
                (l0 & 0x7fu8) as int * 256 + d[i3] as int
            } else {
                l0 as int
            };
            let i4 = if long {
                i3 + 1
            } else {
                i3
            };
            if i4 + len <= d.len() {
                utf8_lossy(d.subrange(i4, i4 + len))
            } else {
                seq![]
            }
        }
    } else {
        if idx + 2 > d.len() {
            seq![]
        } else {
            let u = le16(d, idx);
            let j = idx + 2;
            let long = (u as u16) & 0x8000u16 != 0 && j + 2 <= d.len();
            let n: int = if long {
                ((u as u16) & 0x7fffu16) as int * 65536 + le16(d, j)
            } else {
                u
            };
            let j2 = if long {
                j + 2
            } else {
                j
            };
            if j2 + 2 * n <= d.len() {
                utf16_lossy(units_of(d.subrange(j2, j2 + 2 * n)))
            } else {
                seq![]
            }
        }
    }
}

/// The header fields of a binary manifest that the reader uses, if the
/// magic numbers are right and the string offset table fits.
pub struct ManifestHeader {
    pub table_start: int,
    pub str_count: int,
    pub pool_start: int,
    pub utf8: bool,
    pub chunks_start: int,
}

pub open spec fn manifest_header(d: Seq<u8>) -> Option<ManifestHeader> {
    if d.len() < 36 || le16(d, 0) != 3 || le16(d, 8) != 1 {
        None
    } else {
        let table_start = 8 + le16(d, 10);
        let str_count = le32(d, 16);
        let pool_start = 8 + le32(d, 28);
        if d.len() < table_start + str_count * 4 || d.len() < pool_start {
            None
        } else {
            Some(ManifestHeader {
                table_start,
                str_count,
                pool_start,
                utf8: (le32(d, 24) as u32) & 256u32 != 0,
                chunks_start: 8 + le32(d, 12),
            })
        }
    }
}

/// The strings of the pool, in order.
pub open spec fn pool_strings(d: Seq<u8>, h: ManifestHeader) -> Seq<Seq<char>> {
    Seq::new(
        h.str_count as nat,
        |i: int| pool_string(d, h.pool_start + le32(d, h.table_start + 4 * i), h.utf8),
    )
}

// ---------------------------------------------------------------------
// Attributes
// ---------------------------------------------------------------------

/// A string of the pool at `k`, trimmed, if `k` indexes the pool and the
/// string is not blank.
pub open spec fn nonblank_at(strings: Seq<Seq<char>>, k: int) -> Option<Seq<char>> {
    if 0 <= k < strings.len() && trim(strings[k]).len() > 0 {
        Some(trim(strings[k]))
    } else {
        None
    }
}

/// The value of the attribute record at `off` if it names `target`: its raw
/// string, else its typed string value, else (when `numbers`) its decimal or
/// hexadecimal integer value, printed in decimal.
pub open spec fn attr_value(d: Seq<u8>, strings: Seq<Seq<char>>, target: int, off: int, numbers: bool) -> Option<Seq<char>> {
    if le32(d, off + 4) != target {
        None
    } else {
        let raw = le32(d, off + 8);
        let r1 = if raw != 0xFFFF_FFFF {
            nonblank_at(strings, raw)
        } else {
            None
        };
        if r1 is Some {
            r1
        } else {
            let vt = d[off + 15];
            let vd = le32(d, off + 16);
            let r2 = if vt == 3 {
                nonblank_at(strings, vd)
            } else {
                None
            };
            if r2 is Some {
                r2
            } else if numbers && (vt == 0x10 || vt == 0x11) {
                Some(dec(vd as nat))
            } else {
                None
            }
        }
    }
}

/// The first value found among the attributes `a..cnt` of an element.
pub open spec fn attrs_value(d: Seq<u8>, strings: Seq<Seq<char>>, target: int, first: int, size: int, cnt: int, a: int) -> Option<Seq<char>>
    decreases cnt - a,
{
    if a < 0 || a >= cnt {
        None
    } else {
        let off = first + a * size;
        let here = if off + 20 <= d.len() {
            attr_value(d, strings, target, off, true)
        } else {
            None
        };
        if here is Some {
            here
        } else {
            attrs_value(d, strings, target, first, size, cnt, a + 1)
        }
    }
}

/// The value found in the element chunk at `cur`, if any.
pub open spec fn element_value(d: Seq<u8>, strings: Seq<Seq<char>>, target: int, cur: int) -> Option<Seq<char>> {
    let first = cur + le16(d, cur + 2) + le16(d, cur + 24);
    let size = le16(d, cur + 26);
    if size >= 20 {
        attrs_value(d, strings, target, first, size, le16(d, cur + 28), 0)
    } else {
        None
    }
}

/// Walks the chunks from `cur`: the first value found in a start-element
/// chunk; the walk stops at a chunk that is too small or overruns the data.
pub open spec fn chunk_walk(d: Seq<u8>, strings: Seq<Seq<char>>, target: int, cur: int) -> Option<Seq<char>>
    decreases d.len() - cur,
{
    if cur < 0 || cur + 8 > d.len() {
        None
    } else {
        let size = le32(d, cur + 4);
        if size < 8 || cur + size > d.len() {
            None
        } else {
            let here = if le16(d, cur) == 0x0102 && cur + 36 <= d.len() {
                element_value(d, strings, target, cur)
            } else {
                None
            };
            if here is Some {
                here
            } else {
                chunk_walk(d, strings, target, cur + size)
            }
        }
    }
}

/// Scans every fourth byte from `i` for an attribute record naming
/// `target` with a string value.
pub open spec fn record_scan(d: Seq<u8>, strings: Seq<Seq<char>>, target: int, i: int) -> Option<Seq<char>>
    decreases d.len() - i,
{
    if i < 0 || i + 20 > d.len() {
        None
    } else {
        let here = attr_value(d, strings, target, i, false);
        if here is Some {
            here
        } else {
            record_scan(d, strings, target, i + 4)
        }
    }
}

/// The first index of `attr` in the pool.
pub open spec fn first_string(strings: Seq<Seq<char>>, attr: Seq<char>, k: int) -> Option<int>
    decreases strings.len() - k,
{
    if k < 0 || k >= strings.len() {
        None
    } else if strings[k] == attr {
        Some(k)
    } else {
        first_string(strings, attr, k + 1)
    }
}

/// The value of attribute `attr` in a binary manifest: the pool index of
/// its name is looked up, the element chunks are walked, and failing that
/// every fourth byte is tried as an attribute record.
pub open spec fn manifest_attr(d: Seq<u8>, attr: Seq<char>) -> Option<Seq<char>> {
    match manifest_header(d) {
        None => None,
        Some(h) => {
            let strings = pool_strings(d, h);
            match first_string(strings, attr, 0) {
                None => None,
                Some(t) => match chunk_walk(d, strings, t, h.chunks_start) {
                    Some(v) => Some(v),
                    None => record_scan(d, strings, t, h.chunks_start),
                },
            }
        },
    }
}

// ---------------------------------------------------------------------
// Executable reader
// ---------------------------------------------------------------------

/// The pool string at `idx`.
fn pool_string_at(d: &[u8], idx: u64, utf8: bool) -> (r: String)
    ensures
        r@ == pool_string(d@, idx as int, utf8),
{
    if idx >= d.len() as u64 {
        return String::new();
    }
    let i = idx as usize;
    if utf8 {
        let mut i1 = i + 1;
        if d[i] & 0x80 != 0 && i1 < d.len() {
            i1 = i1 + 1;
        }
        if i1 >= d.len() {
            return String::new();
        }
        let l0 = d[i1];
        let i3 = i1 + 1;
        let long = l0 & 0x80 != 0 && i3 < d.len();
        let len: usize = if long {
            ((l0 & 0x7f) as usize) * 256 + d[i3] as usize
        } else {
            l0 as usize
        };
        let i4 = if long {
            i3 + 1
        } else {
            i3
        };
        if len <= d.len() - i4 {
            let bytes = vstd::slice::slice_subrange(d, i4, i4 + len);
            decode_utf8_lossy(bytes)
        } else {
            String::new()
        }
    } else {
        if d.len() - i < 2 {
            return String::new();
        }
        let u = read_u16(d, i);
        let j = i + 2;
        let long = u & 0x8000 != 0 && d.len() - j >= 2;
        let n: usize = if long {
            ((u & 0x7fff) as usize) * 65536 + read_u16(d, j) as usize
        } else {
            u as usize
        };
        let j2 = if long {
            j + 2
        } else {
            j
        };
        if n <= (d.len() - j2) / 2 {
            let bytes = vstd::slice::slice_subrange(d, j2, j2 + 2 * n);
            let mut units: Vec<u16> = Vec::new();
            let mut k: usize = 0;
            let bl = bytes.len();
            while k < n
                invariant
                    k <= n,
                    bl == bytes@.len(),
                    bytes@.len() == 2 * n,
                    units@.len() == k,
                    forall|q: int| 0 <= q < k ==> units@[q] as int == le16(bytes@, 2 * q),
                decreases n - k,
            {
                units.push(read_u16(bytes, 2 * k));
                k += 1;
            }
            assert(units@ =~= units_of(bytes@));
            decode_utf16_lossy(units.as_slice())
        } else {
            String::new()
        }
    }
}

/// The header fields, in executable form.
struct Header {
    table_start: u64,
    str_count: u64,
    pool_start: u64,
    utf8: bool,
    chunks_start: u64,
}

fn read_header(d: &[u8]) -> (r: Option<Header>)
    ensures
        match r {
            Some(h) => manifest_header(d@) == Some(ManifestHeader {
                table_start: h.table_start as int,
                str_count: h.str_count as int,
                pool_start: h.pool_start as int,
                utf8: h.utf8,
                chunks_start: h.chunks_start as int,
            }),
            None => manifest_header(d@) is None,
        },
{
    if d.len() < 36 {
        return None;
    }
    if read_u16(d, 0) != 3 || read_u16(d, 8) != 1 {
        return None;
    }
    let table_start = 8 + read_u16(d, 10) as u64;
    let str_count = read_u32(d, 16) as u64;
    let pool_start = 8 + read_u32(d, 28) as u64;
    let flags = read_u32(d, 24);
    let n = d.len() as u64;
    if n < table_start + str_count * 4 || n < pool_start {
        return None;
    }
    Some(Header { table_start, str_count, pool_start, utf8: flags & 256 != 0, chunks_start: 8 + read_u32(d, 12) as u64 })
}

fn read_strings(d: &[u8], h: &Header) -> (r: Vec<String>)
    requires
        h.table_start + h.str_count * 4 <= d@.len(),
        h.pool_start <= d@.len(),
    ensures
        r@.len() == h.str_count,
        forall|i: int| 0 <= i < h.str_count ==> (#[trigger] r@[i])@ == pool_string(d@, h.pool_start + le32(d@, h.table_start + 4 * i), h.utf8),
{
    let n = d.len();
    let mut out: Vec<String> = Vec::new();
    let mut i: u64 = 0;
    while i < h.str_count
        invariant
            i <= h.str_count,
            n == d@.len(),
            h.table_start + h.str_count * 4 <= d@.len(),
            h.pool_start <= d@.len(),
            out@.len() == i,
            forall|q: int| 0 <= q < i ==> (#[trigger] out@[q])@ == pool_string(d@, h.pool_start + le32(d@, h.table_start + 4 * q), h.utf8),
        decreases h.str_count - i,
    {
        let pos = (h.table_start + i * 4) as usize;
        let off = read_u32(d, pos) as u64;
        if off >= n as u64 - h.pool_start {
            out.push(String::new());
        } else {
            out.push(pool_string_at(d, h.pool_start + off, h.utf8));
        }
        i += 1;
    }
    out
}

/// A pool string at `k`, trimmed, if it exists and is not blank.
fn nonblank(strings: &Vec<String>, k: u32) -> (r: Option<String>)
    ensures
        opt_view(r) == nonblank_at(crate::text::str_views(strings@), k as int),
{
    if (k as usize) < strings.len() {
        let t = str_trim(strings[k as usize].as_str());
        if t.as_str().unicode_len() > 0 {
            return Some(t);
        }
    }
    None
}

pub open spec fn opt_view(o: Option<String>) -> Option<Seq<char>> {
    match o {
        Some(s) => Some(s@),
        None => None,
    }
}

fn attr_value_at(d: &[u8], strings: &Vec<String>, target: u32, off: usize, numbers: bool) -> (r: Option<String>)
    requires
        off + 20 <= d@.len(),
    ensures
        opt_view(r) == attr_value(d@, crate::text::str_views(strings@), target as int, off as int, numbers),
{
    let n = d.len();
    if read_u32(d, off + 4) != target {
        return None;
    }
    let raw = read_u32(d, off + 8);
    if raw != 0xFFFF_FFFF {
        let r1 = nonblank(strings, raw);
        if r1.is_some() {
            return r1;
        }
    }
    let vt = d[off + 15];
    let vd = read_u32(d, off + 16);
    if vt == 3 {
        let r2 = nonblank(strings, vd);
        if r2.is_some() {
            return r2;
        }
    }
    if numbers && (vt == 0x10 || vt == 0x11) {
        let mut s = String::new();
        push_dec(&mut s, vd as u64);
        return Some(s);
    }
    None
}

fn element_value_at(d: &[u8], strings: &Vec<String>, target: u32, cur: usize) -> (r: Option<String>)
    requires
        cur + 36 <= d@.len(),
    ensures
        opt_view(r) == element_value(d@, crate::text::str_views(strings@), target as int, cur as int),
{
    let n = d.len();
    let ghost sv = crate::text::str_views(strings@);
    let first = cur as u128 + read_u16(d, cur + 2) as u128 + read_u16(d, cur + 24) as u128;
    let size = read_u16(d, cur + 26) as u128;
    let cnt = read_u16(d, cur + 28) as u128;
    if size < 20 {
        return None;
    }
    assert(element_value(d@, sv, target as int, cur as int) == attrs_value(d@, sv, target as int, first as int, size as int, cnt as int, 0));
    let mut a: u128 = 0;
    while a < cnt
        invariant
            a <= cnt <= 65535,
            20 <= size <= 65535,
            n == d@.len(),
            first <= usize::MAX as u128 + 2 * 65535,
            sv == crate::text::str_views(strings@),
            element_value(d@, sv, target as int, cur as int) == attrs_value(d@, sv, target as int, first as int, size as int, cnt as int, 0),
            attrs_value(d@, sv, target as int, first as int, size as int, cnt as int, 0)
                == attrs_value(d@, sv, target as int, first as int, size as int, cnt as int, a as int),
        decreases cnt - a,
    {
        assert(a * size <= 65535 * 65535) by (nonlinear_arith)
            requires
                a <= 65535,
                size <= 65535,
        ;
        let off = first + a * size;
        if off + 20 <= n as u128 {
            let r = attr_value_at(d, strings, target, off as usize, true);
            if r.is_some() {
                assert(attrs_value(d@, sv, target as int, first as int, size as int, cnt as int, a as int) == opt_view(r));
                return r;
            }
        }
        a += 1;
    }
    None
}

/// Walks the element chunks from `start`.
fn walk_chunks(d: &[u8], strings: &Vec<String>, target: u32, start: u64) -> (r: Option<String>)
    ensures
        opt_view(r) == chunk_walk(d@, crate::text::str_views(strings@), target as int, start as int),
{
    let ghost sv = crate::text::str_views(strings@);
    let mut cur = start;
    while cur <= d.len() as u64 && d.len() as u64 - cur >= 8
        invariant
            sv == crate::text::str_views(strings@),
            chunk_walk(d@, sv, target as int, start as int) == chunk_walk(d@, sv, target as int, cur as int),
        decreases d@.len() - cur,
    {
        let c = cur as usize;
        let size = read_u32(d, c + 4) as u64;
        if size < 8 || size > d.len() as u64 - cur {
            return None;
        }
        if read_u16(d, c) == 0x0102 && d.len() - c >= 36 {
            let r = element_value_at(d, strings, target, c);
            if r.is_some() {
                return r;
            }
        }
        cur = cur + size;
    }
    None
}

/// Tries every fourth byte from `start` as an attribute record.
fn scan_records(d: &[u8], strings: &Vec<String>, target: u32, start: u64) -> (r: Option<String>)
    ensures
        opt_view(r) == record_scan(d@, crate::text::str_views(strings@), target as int, start as int),
{
    let ghost sv = crate::text::str_views(strings@);
    let mut i = start;
    while i <= d.len() as u64 && d.len() as u64 - i >= 20
        invariant
            sv == crate::text::str_views(strings@),
            record_scan(d@, sv, target as int, start as int) == record_scan(d@, sv, target as int, i as int),
        decreases d@.len() - i,
    {
        let r = attr_value_at(d, strings, target, i as usize, false);
        if r.is_some() {
            return r;
        }
        i = i + 4;
    }
    None
}

/// The first index of `attr` among the strings.
fn first_string_index(strings: &Vec<String>, attr: &str) -> (r: Option<usize>)
    ensures
        match r {
            Some(t) => t < strings@.len() && first_string(crate::text::str_views(strings@), attr@, 0) == Some(t as int),
            None => first_string(crate::text::str_views(strings@), attr@, 0) is None,
        },
{
    let ghost sv = crate::text::str_views(strings@);
    let mut t: usize = 0;
    while t < strings.len()
        invariant
            t <= strings@.len(),
            sv == crate::text::str_views(strings@),
            first_string(sv, attr@, 0) == first_string(sv, attr@, t as int),
        decreases strings.len() - t,
    {
        if str_eq(strings[t].as_str(), attr) {
            return Some(t);
        }
        t += 1;
    }
    None
}

/// The value of attribute `attr` in a binary `AndroidManifest.xml`, looked
/// up by the pool index of its name: first in the attributes of the
/// element chunks, then by scanning for attribute records.
pub fn find_manifest_attr(data: &[u8], attr: &str) -> (r: Option<String>)
    ensures
        opt_view(r) == manifest_attr(data@, attr@),
{
    let h = match read_header(data) {
        Some(h) => h,
        None => return None,
    };
    let ghost hm = manifest_header(data@)->0;
    let strings = read_strings(data, &h);
    let ghost sv = crate::text::str_views(strings@);
    assert(sv =~= pool_strings(data@, hm));
    let t = match first_string_index(&strings, attr) {
        Some(t) => t,
        None => return None,
    };
    assert(strings@.len() == h.str_count);
    assert(h.str_count as int == le32(data@, 16));
    assert(t < 0x1_0000_0000);
    let target = t as u32;
    match walk_chunks(data, &strings, target, h.chunks_start) {
        Some(v) => Some(v),
        None => scan_records(data, &strings, target, h.chunks_start),
    }
}

// ---------------------------------------------------------------------
// Version and package of an APK
// ---------------------------------------------------------------------

/// A value missing from an APK's manifest.
#[derive(Debug, Clone, Copy)]
pub enum ManifestError {
    VersionNameNotFound,
    PackageNameNotFound,
}

impl ManifestError {
    /// The error text.
    pub fn message(&self) -> (r: String)
        ensures
            r@ == match *self {
                ManifestError::VersionNameNotFound => "versionName not found in AndroidManifest.xml"@,
                ManifestError::PackageNameNotFound => "package name not found in AndroidManifest.xml"@,
            },
    {
        match self {
            ManifestError::VersionNameNotFound => string_from_str("versionName not found in AndroidManifest.xml"),
            ManifestError::PackageNameNotFound => string_from_str("package name not found in AndroidManifest.xml"),
        }
    }
}

/// The `versionName` of an APK, from the bytes of its binary manifest.
pub fn get_apk_version_name(manifest: &[u8]) -> (r: Result<String, ManifestError>)
    ensures
        match r {
            Ok(v) => manifest_attr(manifest@, "versionName"@) == Some(v@),
            Err(e) => manifest_attr(manifest@, "versionName"@) is None && e is VersionNameNotFound,
        },
{
    match find_manifest_attr(manifest, "versionName") {
        Some(v) => Ok(v),
        None => Err(ManifestError::VersionNameNotFound),
    }
}

/// The package named by `aapt dump badging` output: the first line that
/// starts with `package: name='`, up to the next quote.
pub open spec fn badging_package(ls: Seq<Seq<char>>) -> Option<Seq<char>>
    decreases ls.len(),
{
    if ls.len() == 0 {
        None
    } else if starts_with(ls[0], "package: name='"@) {
        Some(split(ls[0].skip("package: name='"@.len() as int), seq!['\''], false)[0])
    } else {
        badging_package(ls.drop_first())
    }
}

proof fn lemma_badging_at(ls: Seq<Seq<char>>, k: int)
    requires
        0 <= k <= ls.len(),
        forall|j: int| 0 <= j < k ==> !starts_with(#[trigger] ls[j], "package: name='"@),
    ensures
        badging_package(ls) == badging_package(ls.skip(k)),
    decreases k,
{
    if k > 0 {
        assert(!starts_with(ls[0], "package: name='"@));
        assert forall|j: int| 0 <= j < k - 1 implies !starts_with(#[trigger] ls.drop_first()[j], "package: name='"@) by {
            assert(ls.drop_first()[j] == ls[j + 1]);
        }
        lemma_badging_at(ls.drop_first(), k - 1);
        assert(ls.drop_first().skip(k - 1) =~= ls.skip(k));
    } else {
        assert(ls.skip(0) =~= ls);
    }
}

/// The package named in `aapt dump badging` output, if any line names one.
pub fn package_from_badging(text: &str) -> (r: Option<String>)
    ensures
        opt_view(r) == badging_package(lines(text@)),
{
    let v = chars_of(text);
    let rs = line_ranges(v.as_slice(), 0, v.len());
    assert(v@.subrange(0, v@.len() as int) =~= v@);
    let prefix = chars_of("package: name='");
    let ghost ls = lines(text@);
    let mut i: usize = 0;
    while i < rs.len()
        invariant
            i <= rs@.len(),
            v@ == text@,
            ls == lines(text@),
            pieces(v@, rs@) == ls,
            ranges_within(rs@, 0, v@.len() as int),
            prefix@ == "package: name='"@,
            forall|j: int| 0 <= j < i ==> !starts_with(#[trigger] ls[j], "package: name='"@),
        decreases rs.len() - i,
    {
        let (a, b) = rs[i];
        proof {
            assert(0 <= rs@[i as int].0 <= rs@[i as int].1 <= v@.len());
            assert(ls[i as int] == v@.subrange(a as int, b as int));
        }
        if starts_with_in(v.as_slice(), a, b, prefix.as_slice()) {
            let start = a + prefix.len();
            let quote: [char; 1] = ['\''];
            assert(quote@ =~= seq!['\'']);
            let parts = split_ranges(v.as_slice(), start, b, quote.as_slice(), false);
            proof {
                assert(ls[i as int].skip(prefix@.len() as int) =~= v@.subrange(start as int, b as int));
                assert(split(v@.subrange(start as int, b as int), seq!['\''], false).len() >= 1);
                lemma_badging_at(ls, i as int);
                assert(ls.skip(i as int)[0] == ls[i as int]);
            }
            let (pa, pb) = parts[0];
            proof {
                assert(pieces(v@, parts@)[0] == v@.subrange(pa as int, pb as int));
            }
            return Some(string_of(v.as_slice(), pa, pb));
        }
        i += 1;
    }
    proof {
        lemma_badging_at(ls, i as int);
        assert(ls.skip(i as int) =~= Seq::<Seq<char>>::empty());
    }
    None
}

/// The package of an APK: from `aapt dump badging` output when it names
/// one, else from the bytes of the binary manifest.
pub fn get_apk_package_name(badging: Option<&str>, manifest: &[u8]) -> (r: Result<String, ManifestError>)
    ensures
        match r {
            Ok(p) => (match badging {
                Some(t) => badging_package(lines(t@)),
                None => None,
            } matches Some(q) && q == p@) || ((match badging {
                Some(t) => badging_package(lines(t@)),
                None => None,
            }) is None && manifest_attr(manifest@, "package"@) == Some(p@)),
            Err(e) => (match badging {
                Some(t) => badging_package(lines(t@)),
                None => None,
            }) is None && manifest_attr(manifest@, "package"@) is None && e is PackageNameNotFound,
        },
{
    if let Some(text) = badging {
        if let Some(p) = package_from_badging(text) {
            return Ok(p);
        }
    }
    match find_manifest_attr(manifest, "package") {
        Some(p) => Ok(p),
        None => Err(ManifestError::PackageNameNotFound),
    }
}

} // verus!
