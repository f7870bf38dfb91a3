//! What `adb` says back: connected devices, install failures, process ids.

use vstd::prelude::*;
use crate::text::{
    chars_of, contains, line_ranges, lines, parse_u32, pieces, push_str, ranges_within, str_contains,
    str_parse_u64, str_trim, str_views, str_words, string_from_str, string_of, trim, words,
};
use crate::utils::apk::{decode_utf8_lossy, utf8_lossy};

verus! {

/// A device that `adb devices` lists, with its state (`device` when usable).
pub struct AdbDevice {
    pub serial: String,
    pub state: String,
}

/// The devices of `adb devices` output: after the header line, each line
/// of at least two words is a serial and a state.
pub open spec fn listed_devices(text: Seq<char>) -> Seq<(Seq<char>, Seq<char>)> {
    let ls = lines(text);
    if ls.len() == 0 {
        seq![]
    } else {
        ls.skip(1).map_values(|l: Seq<char>| words(l)).filter(|w: Seq<Seq<char>>| w.len() >= 2).map_values(
            |w: Seq<Seq<char>>| (w[0], w[1]),
        )
    }
}

/// The devices that `adb devices` printed (its standard output, decoded
/// lossily as UTF-8).
pub fn parse_adb_devices(stdout: &[u8]) -> (r: Vec<AdbDevice>)
    ensures
        r@.map_values(|d: AdbDevice| (d.serial@, d.state@)) == listed_devices(utf8_lossy(stdout@)),
{
    let text = decode_utf8_lossy(stdout);
    let v = chars_of(text.as_str());
    let rs = line_ranges(v.as_slice(), 0, v.len());
    assert(v@.subrange(0, v@.len() as int) =~= v@);
    let ghost ls = lines(text@);
    let mut out: Vec<AdbDevice> = Vec::new();
    if rs.len() == 0 {
        assert(out@.map_values(|d: AdbDevice| (d.serial@, d.state@)) =~= listed_devices(text@));
        return out;
    }
    let ghost ws = ls.skip(1).map_values(|l: Seq<char>| words(l));
    let ghost pred = |w: Seq<Seq<char>>| w.len() >= 2;
    let mut i: usize = 1;
    proof {
        reveal(Seq::filter);
        assert(ws.take(0) =~= Seq::<Seq<Seq<char>>>::empty());
    }
    while i < rs.len()
        invariant
            1 <= i <= rs@.len(),
            v@ == text@,
            ls == lines(text@),
            pieces(v@, rs@) == ls,
            ranges_within(rs@, 0, v@.len() as int),
            ws == ls.skip(1).map_values(|l: Seq<char>| words(l)),
            pred == (|w: Seq<Seq<char>>| w.len() >= 2),
            out@.map_values(|d: AdbDevice| (d.serial@, d.state@)) == ws.take(i - 1).filter(pred).map_values(
                |w: Seq<Seq<char>>| (w[0], w[1]),
            ),
        decreases rs.len() - i,
    {
        let (a, b) = rs[i];
        proof {
            assert(0 <= rs@[i as int].0 <= rs@[i as int].1 <= v@.len());
            assert(ls[i as int] == v@.subrange(a as int, b as int));
            assert(ws[i - 1] == words(ls[i as int]));
            assert(ws.take(i as int) =~= ws.take(i - 1).push(ws[i - 1]));
            ws.take(i - 1).lemma_filter_push(ws[i - 1], pred);
        }
        let line = string_of(v.as_slice(), a, b);
        let parts = str_words(line.as_str());
        if parts.len() >= 2 {
            let ghost o0 = out@.map_values(|d: AdbDevice| (d.serial@, d.state@));
            let d = AdbDevice { serial: string_from_str(parts[0].as_str()), state: string_from_str(parts[1].as_str()) };
            out.push(d);
            proof {
                assert(str_views(parts@)[0] == parts@[0]@);
                assert(str_views(parts@)[1] == parts@[1]@);
                assert(out@.map_values(|d: AdbDevice| (d.serial@, d.state@)) =~= o0.push((ws[i - 1][0], ws[i - 1][1])));
            }
        }
        i += 1;
    }
    assert(ws.take(rs@.len() - 1) =~= ws);
    out
}

/// The line that explains a failed install: the first naming a failure,
/// else the whole text.
pub open spec fn failure_reason(text: Seq<char>) -> Seq<char> {
    let ls = lines(text);
    let hit = |l: Seq<char>| contains(l, "Failure ["@) || contains(l, "INSTALL_FAILED_"@);
    let i = crate::text::first_where(ls, hit);
    if i < ls.len() {
        trim(ls[i])
    } else {
        trim(text)
    }
}

/// The failure of `adb install`, from its success and what it printed (the
/// two outputs decoded lossily as UTF-8 and joined by a newline): none for
/// a success that reports no `Failure [`, else the explaining line.
pub fn install_failure(success: bool, stdout: &[u8], stderr: &[u8]) -> (r: Option<String>)
    ensures
        ({
            let text = utf8_lossy(stdout@) + "\n"@ + utf8_lossy(stderr@);
            if !success || contains(text, "Failure ["@) {
                r matches Some(m) && m@ == "Install failed: "@ + failure_reason(text)
            } else {
                r is None
            }
        }),
{
    let mut text = decode_utf8_lossy(stdout);
    push_str(&mut text, "\n");
    let err = decode_utf8_lossy(stderr);
    push_str(&mut text, err.as_str());
    if success && !str_contains(text.as_str(), "Failure [") {
        return None;
    }
    let v = chars_of(text.as_str());
    let rs = line_ranges(v.as_slice(), 0, v.len());
    assert(v@.subrange(0, v@.len() as int) =~= v@);
    let ghost ls = lines(text@);
    let ghost hit = |l: Seq<char>| contains(l, "Failure ["@) || contains(l, "INSTALL_FAILED_"@);
    let mut i: usize = 0;
    let mut reason: Option<String> = None;
    while i < rs.len() && reason.is_none()
        invariant
            i <= rs@.len(),
            v@ == text@,
            ls == lines(text@),
            pieces(v@, rs@) == ls,
            ranges_within(rs@, 0, v@.len() as int),
            hit == (|l: Seq<char>| contains(l, "Failure ["@) || contains(l, "INSTALL_FAILED_"@)),
            reason is None ==> forall|j: int| 0 <= j < i ==> !hit(#[trigger] ls[j]),
            reason matches Some(t) ==> (0 < i && t@ == trim(ls[i - 1]) && hit(ls[i - 1]) && forall|j: int| 0 <= j < i - 1 ==> !hit(#[trigger] ls[j])),
        decreases rs.len() - i,
    {
        let (a, b) = rs[i];
        proof {
            assert(0 <= rs@[i as int].0 <= rs@[i as int].1 <= v@.len());
            assert(ls[i as int] == v@.subrange(a as int, b as int));
        }
        let line = string_of(v.as_slice(), a, b);
        if str_contains(line.as_str(), "Failure [") || str_contains(line.as_str(), "INSTALL_FAILED_") {
            reason = Some(str_trim(line.as_str()));
        }
        i += 1;
    }
    let r = match reason {
        Some(t) => {
            proof {
                crate::text::lemma_first_where(ls, hit, i - 1);
            }
            t
        },
        None => {
            proof {
                crate::text::lemma_first_where(ls, hit, ls.len() as int);
            }
            str_trim(text.as_str())
        },
    };
    let mut m = string_from_str("Install failed: ");
    push_str(&mut m, r.as_str());
    Some(m)
}

/// The process id that `pidof` printed: its first word as a number, none
/// when it printed nothing.
pub open spec fn printed_pid(text: Seq<char>) -> Option<u32> {
    let t = trim(text);
    if t.len() == 0 || words(t).len() == 0 {
        None
    } else {
        parse_u32(words(t)[0])
    }
}

/// The process id from `adb shell pidof` output (decoded lossily as UTF-8).
pub fn parse_pid(stdout: &[u8]) -> (r: Option<u32>)
    ensures
        r == printed_pid(utf8_lossy(stdout@)),
{
    let text = decode_utf8_lossy(stdout);
    let t = str_trim(text.as_str());
    if t.as_str().unicode_len() == 0 {
        return None;
    }
    let ws = str_words(t.as_str());
    if ws.len() == 0 {
        return None;
    }
    assert(str_views(ws@)[0] == ws@[0]@);
    match str_parse_u64(ws[0].as_str()) {
        Some(n) => {
            if n <= 0xffff_ffffu64 {
                Some(n as u32)
            } else {
                None
            }
        },
        None => None,
    }
}

/// The component started for a package: its `.MainActivity`.
pub fn launch_component(package: &str) -> (r: String)
    ensures
        r@ == package@ + "/.MainActivity"@,
{
    let mut c = string_from_str(package);
    push_str(&mut c, "/.MainActivity");
    c
}

} // verus!
