//! The keystore that patched APKs are signed with: where it comes from,
//! how a new one is made, and decoding one handed over in base64.

use vstd::prelude::*;
use crate::config::apps::AppConfig;
use crate::config::loader::KeystoreConfig;
use crate::text::{
    char_is_ws, chars_of, dec, is_ws, line_ranges, lines, pieces, push_dec, push_str,
    ranges_within, starts_with, str_starts_with, str_trim, string_from_str, string_of, trim,
    trim_start, utf8_len, utf8_width,
};

verus! {

/// The keystore a build signs with.
pub struct ResolvedKeystore {
    pub file: String,
    pub alias: String,
    pub password: String,
    pub generated: bool,
}

/// Where the keystore comes from.
#[derive(Debug, Clone, PartialEq, Eq)]
pub enum KeystoreSource {
    /// The default keystore file, which exists.
    DefaultFile,
    /// The app's own keystore file, which exists.
    AppFile,
    /// Written to the default file from `KEYSTORE_B64`.
    FromBase64,
    /// Copied to the default file from the file that `KEYSTORE_FILE` names.
    CopiedFrom(String),
    /// Generated at the default file.
    Generated,
}

/// The default keystore file: `<keys_dir>/revanced.jks`.
pub fn default_keystore_file(keys_dir: &str) -> (r: String)
    ensures
        r@ == keys_dir@ + "/revanced.jks"@,
{
    let mut f = string_from_str(keys_dir);
    push_str(&mut f, "/revanced.jks");
    f
}

/// The source of the keystore, first that applies: the default file if it
/// exists; the app's keystore if it names one that exists; `KEYSTORE_B64`
/// if set; `KEYSTORE_FILE` if it names a file that exists; else a new one.
pub fn keystore_source(
    default_exists: bool,
    app: &AppConfig,
    app_file_exists: bool,
    base64_set: bool,
    file_env: Option<&str>,
    file_env_exists: bool,
) -> (r: KeystoreSource)
    ensures
        default_exists ==> r == KeystoreSource::DefaultFile,
        !default_exists && app.keystore is Some && app_file_exists ==> r == KeystoreSource::AppFile,
        !default_exists && !(app.keystore is Some && app_file_exists) && base64_set ==> r == KeystoreSource::FromBase64,
        !default_exists && !(app.keystore is Some && app_file_exists) && !base64_set ==> match file_env {
            Some(f) if file_env_exists => r matches KeystoreSource::CopiedFrom(s) && s@ == f@,
            _ => r == KeystoreSource::Generated,
        },
{
    if default_exists {
        return KeystoreSource::DefaultFile;
    }
    if app.keystore.is_some() && app_file_exists {
        return KeystoreSource::AppFile;
    }
    if base64_set {
        return KeystoreSource::FromBase64;
    }
    if let Some(f) = file_env {
        if file_env_exists {
            return KeystoreSource::CopiedFrom(string_from_str(f));
        }
    }
    KeystoreSource::Generated
}

/// The keystore used for `source`: the app's file and alias for its own
/// keystore, else the default file with alias `revanced`; generated only
/// when newly made.
pub fn resolved_keystore(keys_dir: &str, app: &AppConfig, source: &KeystoreSource, password: String) -> (r: ResolvedKeystore)
    ensures
        r.password@ == password@,
        r.generated == (*source == KeystoreSource::Generated),
        (*source == KeystoreSource::AppFile && app.keystore is Some) ==> r.file@ == app.keystore->0.file@ && r.alias@ == app.keystore->0.alias@,
        !(*source == KeystoreSource::AppFile && app.keystore is Some) ==> r.file@ == keys_dir@ + "/revanced.jks"@ && r.alias@ == "revanced"@,
{
    let generated = match source {
        KeystoreSource::Generated => true,
        _ => false,
    };
    match source {
        KeystoreSource::AppFile => {
            if let Some(ks) = &app.keystore {
                return ResolvedKeystore {
                    file: string_from_str(ks.file.as_str()),
                    alias: string_from_str(ks.alias.as_str()),
                    password,
                    generated,
                };
            }
        },
        _ => {},
    }
    ResolvedKeystore { file: default_keystore_file(keys_dir), alias: string_from_str("revanced"), password, generated }
}

/// The `keytool` arguments that generate a PKCS#12 keystore at `file`.
pub fn keytool_generate_args(ks: &KeystoreConfig, file: &str, alias: &str, password: &str) -> (r: Vec<String>)
    ensures
        crate::text::str_views(r@) == seq![
            "-genkeypair"@, "-keystore"@, file@, "-alias"@, alias@, "-keyalg"@, ks.key_algorithm@,
            "-keysize"@, dec(ks.key_size as nat), "-validity"@, dec(ks.validity_days as nat), "-sigalg"@,
            ks.sig_algorithm@, "-dname"@, ks.distinguished_name@, "-storepass"@, password@, "-keypass"@,
            password@, "-storetype"@, "pkcs12"@,
        ],
{
    let mut size = String::new();
    push_dec(&mut size, ks.key_size as u64);
    let mut days = String::new();
    push_dec(&mut days, ks.validity_days as u64);
    let mut v: Vec<String> = Vec::new();
    v.push(string_from_str("-genkeypair"));
    v.push(string_from_str("-keystore"));
    v.push(string_from_str(file));
    v.push(string_from_str("-alias"));
    v.push(string_from_str(alias));
    v.push(string_from_str("-keyalg"));
    v.push(string_from_str(ks.key_algorithm.as_str()));
    v.push(string_from_str("-keysize"));
    v.push(size);
    v.push(string_from_str("-validity"));
    v.push(days);
    v.push(string_from_str("-sigalg"));
    v.push(string_from_str(ks.sig_algorithm.as_str()));
    v.push(string_from_str("-dname"));
    v.push(string_from_str(ks.distinguished_name.as_str()));
    v.push(string_from_str("-storepass"));
    v.push(string_from_str(password));
    v.push(string_from_str("-keypass"));
    v.push(string_from_str(password));
    v.push(string_from_str("-storetype"));
    v.push(string_from_str("pkcs12"));
    assert(crate::text::str_views(v@) =~= seq![
        "-genkeypair"@, "-keystore"@, file@, "-alias"@, alias@, "-keyalg"@, ks.key_algorithm@,
        "-keysize"@, dec(ks.key_size as nat), "-validity"@, dec(ks.validity_days as nat), "-sigalg"@,
        ks.sig_algorithm@, "-dname"@, ks.distinguished_name@, "-storepass"@, password@, "-keypass"@,
        password@, "-storetype"@, "pkcs12"@,
    ]);
    v
}

/// The fingerprint line of `keytool -list -v` output: the first line that
/// starts, after leading white space, with `SHA256:`, trimmed.
pub open spec fn sha256_line(text: Seq<char>) -> Option<Seq<char>> {
    let ls = lines(text);
    if exists|k: int| 0 <= k < ls.len() && starts_with(trim_start(#[trigger] ls[k]), "SHA256:"@) {
        let k = choose|k: int|
            0 <= k < ls.len() && starts_with(trim_start(#[trigger] ls[k]), "SHA256:"@) && forall|j: int|
                0 <= j < k ==> !starts_with(trim_start(#[trigger] ls[j]), "SHA256:"@);
        Some(trim(ls[k]))
    } else {
        None
    }
}

/// The keystore's SHA-256 fingerprint line from `keytool -list -v` output.
pub fn keystore_fingerprint(text: &str) -> (r: Option<String>)
    ensures
        match r {
            Some(s) => sha256_line(text@) == Some(s@),
            None => sha256_line(text@) is None,
        },
{
    let v = chars_of(text);
    let rs = line_ranges(v.as_slice(), 0, v.len());
    assert(v@.subrange(0, v@.len() as int) =~= v@);
    let ghost ls = lines(text@);
    let mut i: usize = 0;
    while i < rs.len()
        invariant
            i <= rs@.len(),
            v@ == text@,
            ls == lines(text@),
            pieces(v@, rs@) == ls,
            ranges_within(rs@, 0, v@.len() as int),
            forall|j: int| 0 <= j < i ==> !starts_with(trim_start(#[trigger] ls[j]), "SHA256:"@),
        decreases rs.len() - i,
    {
        let (a, b) = rs[i];
        proof {
            assert(0 <= rs@[i as int].0 <= rs@[i as int].1 <= v@.len());
            assert(ls[i as int] == v@.subrange(a as int, b as int));
        }
        let line = string_of(v.as_slice(), a, b);
        let (ta, tb) = crate::text::trim_range(v.as_slice(), a, b);
        let start = string_of(v.as_slice(), ta, b);
        assert(start@ == trim_start(line@));
        if str_starts_with(start.as_str(), "SHA256:") {
            let t = str_trim(line.as_str());
            proof {
                let k = choose|k: int|
                    0 <= k < ls.len() && starts_with(trim_start(#[trigger] ls[k]), "SHA256:"@) && forall|j: int|
                        0 <= j < k ==> !starts_with(trim_start(#[trigger] ls[j]), "SHA256:"@);
                if k < i {
                } else if k > i {
                    assert(!starts_with(trim_start(ls[i as int]), "SHA256:"@));
                }
            }
            return Some(t);
        }
        i += 1;
    }
    None
}

// ---------------------------------------------------------------------
// Base64
// ---------------------------------------------------------------------

/// The value of a base64 digit (`A`-`Z`, `a`-`z`, `0`-`9`, `+`, `/`); 255
/// for any other byte.
pub open spec fn b64_value(b: u8) -> u8 {
    if 65 <= b <= 90 {
        (b - 65) as u8
    } else if 97 <= b <= 122 {
        (b - 71) as u8
    } else if 48 <= b <= 57 {
        (b + 4) as u8
    } else if b == 43 {
        62
    } else if b == 47 {
        63
    } else {
        255
    }
}

/// A group of four bytes is accepted: all ASCII, its first two digits valid.
pub open spec fn b64_group_ok(g: Seq<u8>) -> bool {
    g[0] < 128 && g[1] < 128 && g[2] < 128 && g[3] < 128 && b64_value(g[0]) != 255 && b64_value(g[1]) != 255
}

/// The bytes a group of four decodes to; `=` in third or fourth place
/// stands for padding and yields no byte.
pub open spec fn b64_group(g: Seq<u8>) -> Seq<u8> {
    let v0 = b64_value(g[0]);
    let v1 = b64_value(g[1]);
    let v2: u8 = if g[2] == 61 { 0 } else { b64_value(g[2]) };
    let v3: u8 = if g[3] == 61 { 0 } else { b64_value(g[3]) };
    seq![((v0 << 2u8) | (v1 >> 4u8)) as u8] + (if g[2] != 61 {
        seq![(((v1 & 15u8) << 4u8) | (v2 >> 2u8)) as u8]
    } else {
        Seq::<u8>::empty()
    }) + (if g[3] != 61 {
        seq![(((v2 & 3u8) << 6u8) | v3) as u8]
    } else {
        Seq::<u8>::empty()
    })
}

/// The decoding of whole groups of four; what is left after the last whole
/// group is ignored. `None` when a group is refused.
pub open spec fn b64_groups(bs: Seq<u8>) -> Option<Seq<u8>>
    decreases bs.len(),
{
    if bs.len() < 4 {
        Some(seq![])
    } else if !b64_group_ok(bs.take(4)) {
        None
    } else {
        match b64_groups(bs.skip(4)) {
            Some(rest) => Some(b64_group(bs.take(4)) + rest),
            None => None,
        }
    }
}

/// The index of the first character outside ASCII (the length when none).
pub open spec fn first_non_ascii(c: Seq<char>) -> int
    decreases c.len(),
{
    if c.len() == 0 {
        0
    } else if (c[0] as u32) >= 128 {
        0
    } else {
        1 + first_non_ascii(c.drop_first())
    }
}

/// What `KEYSTORE_B64` decodes to. White space is dropped; the UTF-8 bytes
/// of the rest are decoded in whole groups of four. A character outside
/// ASCII makes its group fail; before the first one every byte is a
/// character, so it fails the decoding exactly when it starts inside the
/// whole groups.
pub open spec fn base64_decoded(s: Seq<char>) -> Option<Seq<u8>> {
    let clean = s.filter(|c: char| !is_ws(c));
    let whole: int = 4 * (utf8_width(clean) / 4) as int;
    if first_non_ascii(clean) < whole {
        None
    } else {
        b64_groups(clean.take(whole).map_values(|c: char| (c as u32) as u8))
    }
}

/// The base64 digit (as its ASCII code) of a six-bit value.
pub open spec fn b64_digit(v: u8) -> u8 {
    if v < 26 {
        (v + 65) as u8
    } else if v < 52 {
        (v + 71) as u8
    } else if v < 62 {
        (v - 4) as u8
    } else if v == 62 {
        43
    } else {
        47
    }
}

/// The standard padded base64 encoding of bytes, as ASCII codes: three
/// bytes to four digits, a last group of one or two bytes padded with `=`.
pub open spec fn b64_encode(b: Seq<u8>) -> Seq<u8>
    decreases b.len(),
{
    if b.len() == 0 {
        seq![]
    } else if b.len() == 1 {
        seq![b64_digit(b[0] >> 2u8), b64_digit((b[0] & 3u8) << 4u8), 61u8, 61u8]
    } else if b.len() == 2 {
        seq![
            b64_digit(b[0] >> 2u8),
            b64_digit(((b[0] & 3u8) << 4u8) | (b[1] >> 4u8)),
            b64_digit((b[1] & 15u8) << 2u8),
            61u8,
        ]
    } else {
        seq![
            b64_digit(b[0] >> 2u8),
            b64_digit(((b[0] & 3u8) << 4u8) | (b[1] >> 4u8)),
            b64_digit(((b[1] & 15u8) << 2u8) | (b[2] >> 6u8)),
            b64_digit(b[2] & 63u8),
        ] + b64_encode(b.skip(3))
    }
}

/// The base64 text of bytes.
pub open spec fn b64_text(b: Seq<u8>) -> Seq<char> {
    b64_encode(b).map_values(|x: u8| x as char)
}

/// A digit decodes to its value, is ASCII, and is not the padding `=`.
proof fn lemma_b64_digit(v: u8)
    requires
        v < 64,
    ensures
        b64_value(b64_digit(v)) == v,
        b64_digit(v) < 128,
        b64_digit(v) != 61,
        b64_digit(v) >= 43,
{
}

/// Every code of an encoding is a digit or `=`, and the length is a
/// multiple of four.
proof fn lemma_b64_encode_shape(b: Seq<u8>)
    ensures
        b64_encode(b).len() % 4 == 0,
        forall|i: int| 0 <= i < b64_encode(b).len() ==> 43 <= #[trigger] b64_encode(b)[i] < 128,
    decreases b.len(),
{
    if b.len() > 0 {
        let b0 = b[0];
        assert(b0 >> 2u8 < 64) by (bit_vector);
        assert((b0 & 3u8) << 4u8 < 64) by (bit_vector);
        lemma_b64_digit(b0 >> 2u8);
        lemma_b64_digit((b0 & 3u8) << 4u8);
        if b.len() >= 2 {
            let b1 = b[1];
            assert(((b0 & 3u8) << 4u8) | (b1 >> 4u8) < 64) by (bit_vector);
            assert((b1 & 15u8) << 2u8 < 64) by (bit_vector);
            lemma_b64_digit(((b0 & 3u8) << 4u8) | (b1 >> 4u8));
            lemma_b64_digit((b1 & 15u8) << 2u8);
            if b.len() >= 3 {
                let b2 = b[2];
                assert(((b1 & 15u8) << 2u8) | (b2 >> 6u8) < 64) by (bit_vector);
                assert(b2 & 63u8 < 64) by (bit_vector);
                lemma_b64_digit(((b1 & 15u8) << 2u8) | (b2 >> 6u8));
                lemma_b64_digit(b2 & 63u8);
                lemma_b64_encode_shape(b.skip(3));
                let head = seq![
                    b64_digit(b0 >> 2u8),
                    b64_digit(((b0 & 3u8) << 4u8) | (b1 >> 4u8)),
                    b64_digit(((b1 & 15u8) << 2u8) | (b2 >> 6u8)),
                    b64_digit(b2 & 63u8),
                ];
                assert(b64_encode(b) == head + b64_encode(b.skip(3)));
                assert forall|i: int| 0 <= i < b64_encode(b).len() implies 43 <= #[trigger] b64_encode(b)[i] < 128 by {
                    if i >= 4 {
                        assert(b64_encode(b)[i] == b64_encode(b.skip(3))[i - 4]);
                    }
                }
            }
        }
    }
}

/// Decoding the groups of an encoding gives the bytes back.
proof fn lemma_b64_groups_encode(b: Seq<u8>)
    ensures
        b64_groups(b64_encode(b)) == Some(b),
    decreases b.len(),
{
    let e = b64_encode(b);
    if b.len() == 0 {
        assert(b =~= Seq::<u8>::empty());
    } else {
        let b0 = b[0];
        let v0 = b0 >> 2u8;
        let p1 = (b0 & 3u8) << 4u8;
        assert(v0 < 64 && p1 < 64) by (bit_vector)
            requires
                v0 == b0 >> 2u8,
                p1 == (b0 & 3u8) << 4u8,
        ;
        lemma_b64_digit(v0);
        lemma_b64_digit(p1);
        lemma_b64_encode_shape(b);
        let g = e.take(4);
        if b.len() == 1 {
            assert(((v0 << 2u8) | (p1 >> 4u8)) as u8 == b0) by (bit_vector)
                requires
                    v0 == b0 >> 2u8,
                    p1 == (b0 & 3u8) << 4u8,
            ;
            assert(e.skip(4) =~= Seq::<u8>::empty());
            assert(g =~= e);
            assert(b64_group(g) =~= b);
        } else {
            let b1 = b[1];
            let v1 = ((b0 & 3u8) << 4u8) | (b1 >> 4u8);
            assert(v1 < 64) by (bit_vector)
                requires
                    v1 == ((b0 & 3u8) << 4u8) | (b1 >> 4u8),
            ;
            lemma_b64_digit(v1);
            assert(((v0 << 2u8) | (v1 >> 4u8)) as u8 == b0) by (bit_vector)
                requires
                    v0 == b0 >> 2u8,
                    v1 == ((b0 & 3u8) << 4u8) | (b1 >> 4u8),
            ;
            if b.len() == 2 {
                let p2 = (b1 & 15u8) << 2u8;
                assert(p2 < 64) by (bit_vector)
                    requires
                        p2 == (b1 & 15u8) << 2u8,
                ;
                lemma_b64_digit(p2);
                assert((((v1 & 15u8) << 4u8) | (p2 >> 2u8)) as u8 == b1) by (bit_vector)
                    requires
                        v1 == ((b0 & 3u8) << 4u8) | (b1 >> 4u8),
                        p2 == (b1 & 15u8) << 2u8,
                ;
                assert(e.skip(4) =~= Seq::<u8>::empty());
                assert(g =~= e);
                assert(b64_group(g) =~= b);
            } else {
                let b2 = b[2];
                let v2 = ((b1 & 15u8) << 2u8) | (b2 >> 6u8);
                let v3 = b2 & 63u8;
                assert(v2 < 64 && v3 < 64) by (bit_vector)
                    requires
                        v2 == ((b1 & 15u8) << 2u8) | (b2 >> 6u8),
                        v3 == b2 & 63u8,
                ;
                lemma_b64_digit(v2);
                lemma_b64_digit(v3);
                assert((((v1 & 15u8) << 4u8) | (v2 >> 2u8)) as u8 == b1) by (bit_vector)
                    requires
                        v1 == ((b0 & 3u8) << 4u8) | (b1 >> 4u8),
                        v2 == ((b1 & 15u8) << 2u8) | (b2 >> 6u8),
                ;
                assert((((v2 & 3u8) << 6u8) | v3) as u8 == b2) by (bit_vector)
                    requires
                        v2 == ((b1 & 15u8) << 2u8) | (b2 >> 6u8),
                        v3 == b2 & 63u8,
                ;
                let head = seq![b64_digit(v0), b64_digit(v1), b64_digit(v2), b64_digit(v3)];
                assert(e == head + b64_encode(b.skip(3)));
                assert(g =~= head);
                assert(e.skip(4) =~= b64_encode(b.skip(3)));
                assert(b64_group(g) =~= b.take(3));
                lemma_b64_groups_encode(b.skip(3));
                assert(b.take(3) + b.skip(3) =~= b);
            }
        }
    }
}

proof fn lemma_keep_non_ws(s: Seq<char>)
    requires
        forall|i: int| 0 <= i < s.len() ==> !is_ws(#[trigger] s[i]),
    ensures
        s.filter(|c: char| !is_ws(c)) == s,
    decreases s.len(),
{
    reveal(Seq::filter);
    if s.len() > 0 {
        let d = s.drop_last();
        assert forall|i: int| 0 <= i < d.len() implies !is_ws(#[trigger] d[i]) by {
            assert(d[i] == s[i]);
        }
        lemma_keep_non_ws(d);
        assert(!is_ws(s[s.len() - 1]));
        assert(d.push(s.last()) =~= s);
    }
}

/// Decoding the standard base64 text of any bytes, with white space put in
/// anywhere, gives the bytes back.
pub proof fn lemma_base64_round_trip(b: Seq<u8>, s: Seq<char>)
    requires
        s.filter(|c: char| !is_ws(c)) == b64_text(b),
    ensures
        base64_decoded(s) == Some(b),
{
    let e = b64_encode(b);
    let t = b64_text(b);
    lemma_b64_encode_shape(b);
    assert forall|j: int| 0 <= j < t.len() implies (#[trigger] t[j] as u32) < 128 by {
        assert(t[j] == e[j] as char);
        assert(43 <= e[j] < 128);
    }
    lemma_first_non_ascii(t, t.len() as int);
    lemma_ascii_width(t);
    assert(4 * (utf8_width(t) / 4) as int == t.len());
    assert(t.take(t.len() as int) =~= t);
    assert(t.map_values(|c: char| (c as u32) as u8) =~= e);
    lemma_b64_groups_encode(b);
}

/// Decoding the standard base64 text of any bytes gives the bytes back.
pub proof fn lemma_base64_decodes_encoding(b: Seq<u8>)
    ensures
        base64_decoded(b64_text(b)) == Some(b),
{
    let e = b64_encode(b);
    let t = b64_text(b);
    lemma_b64_encode_shape(b);
    assert forall|i: int| 0 <= i < t.len() implies !is_ws(#[trigger] t[i]) by {
        assert(t[i] == e[i] as char);
        assert(43 <= e[i] < 128);
    }
    lemma_keep_non_ws(t);
    lemma_base64_round_trip(b, t);
}

proof fn lemma_first_non_ascii(c: Seq<char>, k: int)
    requires
        0 <= k <= c.len(),
        forall|j: int| 0 <= j < k ==> (#[trigger] c[j] as u32) < 128,
        k < c.len() ==> (c[k] as u32) >= 128,
    ensures
        first_non_ascii(c) == k,
    decreases k,
{
    if k > 0 {
        assert forall|j: int| 0 <= j < k - 1 implies (#[trigger] c.drop_first()[j] as u32) < 128 by {
            assert(c.drop_first()[j] == c[j + 1]);
        }
        if k < c.len() {
            assert(c.drop_first()[k - 1] == c[k]);
        }
        lemma_first_non_ascii(c.drop_first(), k - 1);
    }
}

proof fn lemma_ascii_width(c: Seq<char>)
    requires
        forall|j: int| 0 <= j < c.len() ==> (#[trigger] c[j] as u32) < 128,
    ensures
        utf8_width(c) == c.len(),
    decreases c.len(),
{
    if c.len() > 0 {
        assert forall|j: int| 0 <= j < c.drop_last().len() implies (#[trigger] c.drop_last()[j] as u32) < 128 by {
            assert(c.drop_last()[j] == c[j]);
        }
        lemma_ascii_width(c.drop_last());
    }
}

/// Decodes base64 text, ignoring white space; an error for a character that
/// is not a base64 digit where one is needed.
pub fn base64_decode(s: &str) -> (r: Result<Vec<u8>, String>)
    requires
        utf8_width(s@) <= usize::MAX,
    ensures
        match base64_decoded(s@) {
            Some(b) => r matches Ok(v) && v@ == b,
            None => r matches Err(m) && m@ == "Invalid base64 character"@,
        },
{
    let v = chars_of(s);
    let ghost pred = |c: char| !is_ws(c);
    let mut clean: Vec<char> = Vec::new();
    let mut width: usize = 0;
    let mut i: usize = 0;
    proof {
        reveal(Seq::filter);
        assert(s@.take(0) =~= Seq::<char>::empty());
    }
    while i < v.len()
        invariant
            i <= v@.len(),
            v@ == s@,
            utf8_width(s@) <= usize::MAX,
            pred == (|c: char| !is_ws(c)),
            clean@ == s@.take(i as int).filter(pred),
            width == utf8_width(clean@),
            width <= utf8_width(s@.take(i as int)),
        decreases v.len() - i,
    {
        proof {
            assert(s@.take(i + 1) =~= s@.take(i as int).push(s@[i as int]));
            s@.take(i as int).lemma_filter_push(s@[i as int], pred);
            assert(s@.take(i + 1).drop_last() =~= s@.take(i as int));
            crate::text::lemma_utf8_width_subrange(s@, 0, i + 1);
            assert(s@.subrange(0, i + 1) =~= s@.take(i + 1));
        }
        let c = v[i];
        if !char_is_ws(c) {
            let u = c as u32;
            let w: usize = if u < 0x80 {
                1
            } else if u < 0x800 {
                2
            } else if u < 0x10000 {
                3
            } else {
                4
            };
            let ghost c0 = clean@;
            clean.push(c);
            assert(clean@.drop_last() =~= c0);
            width = width + w;
        }
        i += 1;
    }
    assert(s@.take(v@.len() as int) =~= s@);
    let whole = 4 * (width / 4);
    let mut k: usize = 0;
    while k < clean.len() && (clean[k] as u32) < 128
        invariant
            k <= clean@.len(),
            forall|j: int| 0 <= j < k ==> (#[trigger] clean@[j] as u32) < 128,
        decreases clean.len() - k,
    {
        k += 1;
    }
    proof {
        lemma_first_non_ascii(clean@, k as int);
        assert(clean@ == s@.filter(|c: char| !is_ws(c)));
        assert(whole == 4 * (utf8_width(clean@) / 4) as int);
    }
    if k < whole {
        return Err(string_from_str("Invalid base64 character"));
    }
    proof {
        if k == clean@.len() {
            lemma_ascii_width(clean@);
        }
    }
    let ghost bs = clean@.take(whole as int).map_values(|c: char| (c as u32) as u8);
    let mut out: Vec<u8> = Vec::new();
    let mut p: usize = 0;
    assert(base64_decoded(s@) == b64_groups(bs));
    proof {
        assert(bs.skip(0) =~= bs);
        if b64_groups(bs) is Some {
            assert(out@ + b64_groups(bs)->0 =~= b64_groups(bs)->0);
        }
    }
    while p + 3 < whole
        invariant
            whole <= clean@.len(),
            whole % 4 == 0,
            p % 4 == 0,
            p <= whole,
            k >= whole,
            forall|j: int| 0 <= j < k ==> (#[trigger] clean@[j] as u32) < 128,
            bs == clean@.take(whole as int).map_values(|c: char| (c as u32) as u8),
            base64_decoded(s@) == b64_groups(bs),
            b64_groups(bs) == match b64_groups(bs.skip(p as int)) {
                Some(rest) => Some(out@ + rest),
                None => None::<Seq<u8>>,
            },
        decreases whole - p,
    {
        let b0 = (clean[p] as u32) as u8;
        let b1 = (clean[p + 1] as u32) as u8;
        let b2 = (clean[p + 2] as u32) as u8;
        let b3 = (clean[p + 3] as u32) as u8;
        let ghost g = bs.skip(p as int).take(4);
        proof {
            assert(g =~= seq![b0, b1, b2, b3]);
            assert(bs.skip(p as int).skip(4) =~= bs.skip(p + 4));
        }
        let v0 = b64_value_exec(b0);
        let v1 = b64_value_exec(b1);
        let v2: u8 = if b2 == 61u8 { 0 } else { b64_value_exec(b2) };
        let v3: u8 = if b3 == 61u8 { 0 } else { b64_value_exec(b3) };
        if b0 >= 128 || b1 >= 128 || b2 >= 128 || b3 >= 128 || v0 == 255 || v1 == 255 {
            assert(!b64_group_ok(g));
            return Err(string_from_str("Invalid base64 character"));
        }
        let ghost o0 = out@;
        out.push((v0 << 2u8) | (v1 >> 4u8));
        if b2 != 61u8 {
            out.push(((v1 & 15u8) << 4u8) | (v2 >> 2u8));
        }
        if b3 != 61u8 {
            out.push(((v2 & 3u8) << 6u8) | v3);
        }
        assert(out@ =~= o0 + b64_group(g));
        p += 4;
    }
    assert(bs.skip(p as int).len() < 4);
    assert(out@ + Seq::<u8>::empty() =~= out@);
    Ok(out)
}

fn b64_value_exec(b: u8) -> (r: u8)
    ensures
        r == b64_value(b),
{
    if 65 <= b && b <= 90 {
        b - 65
    } else if 97 <= b && b <= 122 {
        b - 71
    } else if 48 <= b && b <= 57 {
        b + 4
    } else if b == 43 {
        62
    } else if b == 47 {
        63
    } else {
        255
    }
}

} // verus!
