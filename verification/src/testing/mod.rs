//! Smoke tests of built APKs: which APKs are tested, and what each test
//! reports.

pub mod device;

use vstd::prelude::*;
use crate::collections::StrMap;
use crate::text::{
    opt_string_view,
    chars_of, ends_with, push_str, split, split_ranges, starts_with, str_ends_with, str_eq,
    str_starts_with, str_views, string_from_str, string_of, strip_suffixes, strip_suffixes_end,
    trim, pieces, ranges_within,
};

verus! {

/// The result of testing one app.
#[derive(Debug, Clone)]
pub struct TestReportItem {
    pub app: String,
    pub package: String,
    /// `passed`, `failed` or `skipped`.
    pub status: String,
    pub install_ms: Option<u64>,
    pub launch_ms: Option<u64>,
    pub reason: Option<String>,
}

/// The results of a test run, with the number of each status.
#[derive(Debug, Clone)]
pub struct TestReport {
    pub items: Vec<TestReportItem>,
    pub passed: usize,
    pub failed: usize,
    pub skipped: usize,
}

/// The number of items whose status is `s`.
pub open spec fn status_count(items: Seq<TestReportItem>, s: Seq<char>) -> nat
    decreases items.len(),
{
    if items.len() == 0 {
        0
    } else {
        status_count(items.drop_last(), s) + if items.last().status@ == s {
            1nat
        } else {
            0nat
        }
    }
}

/// Every item has one of the three statuses.
pub open spec fn known_statuses(items: Seq<TestReportItem>) -> bool {
    forall|i: int|
        0 <= i < items.len() ==> {
            let st = (#[trigger] items[i]).status@;
            st == "passed"@ || st == "failed"@ || st == "skipped"@
        }
}

impl TestReport {
    /// The counters are the numbers of items with each status.
    pub open spec fn counts_agree(&self) -> bool {
        &&& self.passed == status_count(self.items@, "passed"@)
        &&& self.failed == status_count(self.items@, "failed"@)
        &&& self.skipped == status_count(self.items@, "skipped"@)
    }
}

proof fn lemma_status_count_push(items: Seq<TestReportItem>, item: TestReportItem, s: Seq<char>)
    ensures
        status_count(items.push(item), s) == status_count(items, s) + if item.status@ == s {
            1nat
        } else {
            0nat
        },
{
    assert(items.push(item).drop_last() =~= items);
}

proof fn lemma_status_count_le(items: Seq<TestReportItem>, s: Seq<char>)
    ensures
        status_count(items, s) <= items.len(),
    decreases items.len(),
{
    if items.len() > 0 {
        lemma_status_count_le(items.drop_last(), s);
    }
}

/// The three counters of a report whose counters agree with its items add
/// up to the number of items, when every item has one of the three statuses.
pub proof fn lemma_counts_cover_items(r: TestReport)
    requires
        r.counts_agree(),
        known_statuses(r.items@),
    ensures
        r.passed + r.failed + r.skipped == r.items@.len(),
{
    lemma_counts_sum(r.items@);
}

proof fn lemma_counts_sum(items: Seq<TestReportItem>)
    requires
        known_statuses(items),
    ensures
        status_count(items, "passed"@) + status_count(items, "failed"@) + status_count(items, "skipped"@) == items.len(),
    decreases items.len(),
{
    if items.len() > 0 {
        let d = items.drop_last();
        assert forall|i: int| 0 <= i < d.len() implies {
            let st = (#[trigger] d[i]).status@;
            st == "passed"@ || st == "failed"@ || st == "skipped"@
        } by {
            assert(d[i] == items[i]);
        }
        lemma_counts_sum(d);
        reveal_strlit("passed");
        reveal_strlit("failed");
        reveal_strlit("skipped");
        assert(items[items.len() - 1] == items.last());
        assert("passed"@[0] != "failed"@[0] && "passed"@[0] != "skipped"@[0] && "failed"@[0] != "skipped"@[0]);
    }
}

impl Default for TestReport {
    fn default() -> (r: Self)
        ensures
            r.counts_agree(),
            r.items@.len() == 0,
            r.passed == 0,
            r.failed == 0,
            r.skipped == 0,
    {
        TestReport { items: Vec::new(), passed: 0, failed: 0, skipped: 0 }
    }
}

impl TestReport {
    /// Adds a result and counts it under its status.
    pub fn record(&mut self, item: TestReportItem)
        requires
            item.status@ == "passed"@ ==> old(self).passed < usize::MAX,
            item.status@ == "failed"@ ==> old(self).failed < usize::MAX,
            item.status@ == "skipped"@ ==> old(self).skipped < usize::MAX,
        ensures
            final(self).items@ == old(self).items@.push(item),
            final(self).passed == old(self).passed + (if item.status@ == "passed"@ { 1int } else { 0int }),
            final(self).failed == old(self).failed + (if item.status@ == "failed"@ { 1int } else { 0int }),
            final(self).skipped == old(self).skipped + (if item.status@ == "skipped"@ { 1int } else { 0int }),
            old(self).counts_agree() ==> final(self).counts_agree(),
    {
        proof {
            lemma_status_count_push(old(self).items@, item, "passed"@);
            lemma_status_count_push(old(self).items@, item, "failed"@);
            lemma_status_count_push(old(self).items@, item, "skipped"@);
            reveal_strlit("passed");
            reveal_strlit("failed");
            reveal_strlit("skipped");
            assert("passed"@[0] != "failed"@[0] && "passed"@[0] != "skipped"@[0] && "failed"@[0] != "skipped"@[0]);
        }
        if str_eq(item.status.as_str(), "passed") {
            self.passed = self.passed + 1;
        } else if str_eq(item.status.as_str(), "failed") {
            self.failed = self.failed + 1;
        } else if str_eq(item.status.as_str(), "skipped") {
            self.skipped = self.skipped + 1;
        }
        self.items.push(item);
    }

    /// The report of a whole test run: `items` recorded one after another
    /// from an empty report. Its counters are the numbers of items with
    /// each status.
    pub fn from_items(items: Vec<TestReportItem>) -> (r: TestReport)
        ensures
            r.items@ == items@,
            r.counts_agree(),
            r.passed == status_count(items@, "passed"@),
            r.failed == status_count(items@, "failed"@),
            r.skipped == status_count(items@, "skipped"@),
            known_statuses(items@) ==> r.passed + r.failed + r.skipped == items@.len(),
    {
        let ghost all = items@;
        let mut rest = items;
        let mut r = TestReport::default();
        let total: usize = rest.len();
        assert(all.len() == total);
        assert(all.skip(0) =~= all);
        while rest.len() > 0
            invariant
                r.items@.len() + rest@.len() == all.len(),
                all.len() <= usize::MAX,
                r.items@ == all.take(r.items@.len() as int),
                rest@ == all.skip(r.items@.len() as int),
                r.counts_agree(),
            decreases rest.len(),
        {
            let ghost k = r.items@.len() as int;
            proof {
                lemma_status_count_le(r.items@, "passed"@);
                lemma_status_count_le(r.items@, "failed"@);
                lemma_status_count_le(r.items@, "skipped"@);
            }
            let item = rest.remove(0);
            proof {
                assert(item == all[k]);
                assert(all.take(k + 1) =~= all.take(k).push(all[k]));
                assert(rest@ =~= all.skip(k + 1));
            }
            r.record(item);
        }
        assert(all.take(all.len() as int) =~= all);
        proof {
            if known_statuses(all) {
                lemma_counts_cover_items(r);
            }
        }
        r
    }
}

/// The app id a built APK's file stem names: `-root` and `-patched`
/// endings taken off.
pub open spec fn output_app_id(stem: Seq<char>) -> Seq<char> {
    strip_suffixes(strip_suffixes(stem, "-root"@), "-patched"@)
}

/// The app id of a built APK's file stem.
pub fn app_id_of_stem(stem: &str) -> (r: String)
    ensures
        r@ == output_app_id(stem@),
{
    let v = chars_of(stem);
    let root = chars_of("-root");
    let patched = chars_of("-patched");
    assert(v@.subrange(0, v@.len() as int) =~= v@);
    let e1 = strip_suffixes_end(v.as_slice(), 0, v.len(), root.as_slice());
    let e2 = strip_suffixes_end(v.as_slice(), 0, e1, patched.as_slice());
    string_of(v.as_slice(), 0, e2)
}

/// An app that the request names: every app for `all`, else one of its
/// comma-separated, trimmed names.
pub open spec fn app_requested(request: Seq<char>, id: Seq<char>) -> bool {
    request == "all"@ || exists|k: int| 0 <= k < split(request, seq![','], false).len() && trim(#[trigger] split(request, seq![','], false)[k]) == id
}

/// Whether the request names app `id`.
pub fn is_requested(request: &str, id: &str) -> (r: bool)
    ensures
        r == app_requested(request@, id@),
{
    if str_eq(request, "all") {
        return true;
    }
    let v = chars_of(request);
    let comma: [char; 1] = [','];
    assert(comma@ =~= seq![',']);
    let rs = split_ranges(v.as_slice(), 0, v.len(), comma.as_slice(), false);
    assert(v@.subrange(0, v@.len() as int) =~= v@);
    let ghost ps = split(request@, seq![','], false);
    let mut i: usize = 0;
    while i < rs.len()
        invariant
            i <= rs@.len(),
            v@ == request@,
            ps == split(request@, seq![','], false),
            pieces(v@, rs@) == ps,
            ranges_within(rs@, 0, v@.len() as int),
            forall|k: int| 0 <= k < i ==> trim(#[trigger] ps[k]) != id@,
        decreases rs.len() - i,
    {
        let (a, b) = rs[i];
        proof {
            assert(0 <= rs@[i as int].0 <= rs@[i as int].1 <= v@.len());
            assert(ps[i as int] == v@.subrange(a as int, b as int));
        }
        let (ta, tb) = crate::text::trim_range(v.as_slice(), a, b);
        let t = string_of(v.as_slice(), ta, tb);
        if str_eq(t.as_str(), id) {
            assert(trim(ps[i as int]) == id@);
            return true;
        }
        i += 1;
    }
    false
}

/// The first of the file names that is the unpatched input of app `id`:
/// starts with the id and ends with `-input.apk`.
pub fn find_input_apk(names: &Vec<String>, id: &str) -> (r: Option<usize>)
    ensures
        ({
            let i = crate::text::first_where(
                str_views(names@),
                |n: Seq<char>| starts_with(n, id@) && ends_with(n, "-input.apk"@),
            );
            if i < names@.len() {
                r == Some(i as usize)
            } else {
                r is None
            }
        }),
{
    let ghost p = |n: Seq<char>| starts_with(n, id@) && ends_with(n, "-input.apk"@);
    let ghost nv = str_views(names@);
    let mut i: usize = 0;
    while i < names.len()
        invariant
            i <= names@.len(),
            nv == str_views(names@),
            p == (|n: Seq<char>| starts_with(n, id@) && ends_with(n, "-input.apk"@)),
            forall|j: int| 0 <= j < i ==> !p(#[trigger] nv[j]),
        decreases names.len() - i,
    {
        assert(nv[i as int] == names@[i as int]@);
        if str_starts_with(names[i].as_str(), id) && str_ends_with(names[i].as_str(), "-input.apk") {
            proof {
                crate::text::lemma_first_where(nv, p, i as int);
            }
            return Some(i);
        }
        i += 1;
    }
    proof {
        crate::text::lemma_first_where(nv, p, nv.len() as int);
    }
    None
}

/// The dex files of an APK by name, with their CRC-32: the entries whose
/// name ends in `.dex`, a later entry of the same name replacing an earlier.
pub fn dex_entries(entries: &Vec<(String, u32)>) -> (r: StrMap<u32>)
    ensures
        forall|q: Seq<char>| #[trigger] r.spec_get(q) == dex_crc_of(entries@, q),
{
    let mut m: StrMap<u32> = StrMap::new();
    let mut i: usize = 0;
    while i < entries.len()
        invariant
            i <= entries@.len(),
            forall|q: Seq<char>| #[trigger] m.spec_get(q) == dex_crc_of(entries@.take(i as int), q),
        decreases entries.len() - i,
    {
        let (name, crc) = (&entries[i].0, entries[i].1);
        proof {
            assert(entries@.take(i + 1).drop_last() =~= entries@.take(i as int));
        }
        if str_ends_with(name.as_str(), ".dex") {
            m.insert(string_from_str(name.as_str()), crc);
        }
        i += 1;
    }
    assert(entries@.take(entries@.len() as int) =~= entries@);
    m
}

/// The CRC-32 recorded for dex file `q`: that of the last entry of that
/// name, if one ends in `.dex`.
pub open spec fn dex_crc_of(es: Seq<(String, u32)>, q: Seq<char>) -> Option<u32>
    decreases es.len(),
{
    if es.len() == 0 {
        None
    } else if es.last().0@ == q && ends_with(q, ".dex"@) {
        Some(es.last().1)
    } else {
        dex_crc_of(es.drop_last(), q)
    }
}

fn same_dex(a: &StrMap<u32>, b: &StrMap<u32>) -> (r: bool)
    ensures
        r == (a@ == b@),
{
    if a.len() != b.len() {
        return false;
    }
    let mut i: usize = 0;
    while i < a.len()
        invariant
            i <= a@.len(),
            a@.len() == b@.len(),
            forall|j: int| 0 <= j < i ==> a@[j] == b@[j],
        decreases a@.len() - i,
    {
        if !str_eq(a.key_at(i).as_str(), b.key_at(i).as_str()) || *a.value_at(i) != *b.value_at(i) {
            return false;
        }
        i += 1;
    }
    assert(a@ =~= b@);
    true
}

/// A result with no timings.
fn untimed(app: &str, package: &str, status: &str, reason: &str) -> (r: TestReportItem)
    ensures
        r.app@ == app@,
        r.package@ == package@,
        r.status@ == status@,
        r.install_ms is None,
        r.launch_ms is None,
        opt_string_view(r.reason) == Some(reason@),
{
    TestReportItem {
        app: string_from_str(app),
        package: string_from_str(package),
        status: string_from_str(status),
        install_ms: None,
        launch_ms: None,
        reason: Some(string_from_str(reason)),
    }
}

/// The result of checking a built APK without a device. `package` is the
/// package read from it (empty when unreadable); `out_dex` its dex files
/// (none when it could not be read); `input_dex` those of its unpatched
/// input, where one was found and read. It fails for an unreadable package,
/// for missing dex files, or for dex files identical to the input's
/// (nothing was patched); else it passes.
pub fn static_check(app: &str, package: &str, out_dex: Option<&StrMap<u32>>, input_dex: Option<&StrMap<u32>>) -> (r: TestReportItem)
    ensures
        r.app@ == app@,
        r.install_ms is None,
        r.launch_ms is None,
        package@.len() == 0 ==> {
            &&& r.package@.len() == 0
            &&& r.status@ == "failed"@
            &&& opt_string_view(r.reason) == Some("could not resolve package name from manifest"@)
        },
        package@.len() > 0 ==> r.package@ == package@,
        package@.len() > 0 && !(out_dex matches Some(d) && d@.len() > 0) ==> {
            &&& r.status@ == "failed"@
            &&& opt_string_view(r.reason) == Some("corrupt APK or missing classes.dex"@)
        },
        package@.len() > 0 && (out_dex matches Some(d) && d@.len() > 0) && (input_dex matches Some(i) && i@
            == out_dex->0@) ==> {
            &&& r.status@ == "failed"@
            &&& opt_string_view(r.reason) == Some(
                "output APK dex is identical to unpatched input APK \u{2014} 0 patches applied"@,
            )
        },
        package@.len() > 0 && (out_dex matches Some(d) && d@.len() > 0) && !(input_dex matches Some(i) && i@
            == out_dex->0@) ==> {
            &&& r.status@ == "passed"@
            &&& opt_string_view(r.reason) == Some("static APK & dex verification passed"@)
        },
{
    proof {
        reveal_strlit("");
    }
    if package.unicode_len() == 0 {
        return untimed(app, "", "failed", "could not resolve package name from manifest");
    }
    let out = match out_dex {
        Some(d) => {
            if d.len() > 0 {
                d
            } else {
                return untimed(app, package, "failed", "corrupt APK or missing classes.dex");
            }
        },
        None => return untimed(app, package, "failed", "corrupt APK or missing classes.dex"),
    };
    if let Some(inp) = input_dex {
        if same_dex(inp, out) {
            return untimed(
                app,
                package,
                "failed",
                "output APK dex is identical to unpatched input APK \u{2014} 0 patches applied",
            );
        }
    }
    untimed(app, package, "passed", "static APK & dex verification passed")
}

/// How a test on a device went.
pub enum DeviceRun {
    /// The APK's package could not be read; nothing was installed.
    NoPackage,
    /// Installing failed after `install_ms`, with this error.
    InstallFailed { install_ms: u64, error: String },
    /// Installed and launched; whether the launch succeeded and the process
    /// was still alive within the grace period.
    Launched { install_ms: u64, launch_ms: u64, launch_ok: bool, alive: bool },
}

/// The result of testing app `app` (package `package`) on a device:
/// skipped without a package; failed with the install error; passed when
/// the launch succeeded and the process stayed alive; else failed, a dead
/// process being reported first.
pub fn device_check(app: &str, package: &str, run: &DeviceRun) -> (r: TestReportItem)
    ensures
        r.app@ == app@,
        match run {
            DeviceRun::NoPackage => {
                &&& r.status@ == "skipped"@
                &&& r.package@.len() == 0
                &&& r.install_ms is None
                &&& r.launch_ms is None
                &&& opt_string_view(r.reason) == Some("could not resolve package name from manifest"@)
            },
            DeviceRun::InstallFailed { install_ms, error } => {
                &&& r.status@ == "failed"@
                &&& r.package@ == package@
                &&& r.install_ms == Some(*install_ms)
                &&& r.launch_ms is None
                &&& opt_string_view(r.reason) == Some(error@)
            },
            DeviceRun::Launched { install_ms, launch_ms, launch_ok, alive } => {
                &&& r.package@ == package@
                &&& r.install_ms == Some(*install_ms)
                &&& r.launch_ms == Some(*launch_ms)
                &&& (*launch_ok && *alive) ==> r.status@ == "passed"@ && r.reason is None
                &&& !*alive ==> r.status@ == "failed"@ && opt_string_view(r.reason) == Some(
                    "process died within startup grace period"@,
                )
                &&& (*alive && !*launch_ok) ==> r.status@ == "failed"@ && opt_string_view(r.reason) == Some(
                    "activity launch failed"@,
                )
            },
        },
{
    proof {
        reveal_strlit("");
    }
    match run {
        DeviceRun::NoPackage => untimed(app, "", "skipped", "could not resolve package name from manifest"),
        DeviceRun::InstallFailed { install_ms, error } => TestReportItem {
            app: string_from_str(app),
            package: string_from_str(package),
            status: string_from_str("failed"),
            install_ms: Some(*install_ms),
            launch_ms: None,
            reason: Some(string_from_str(error.as_str())),
        },
        DeviceRun::Launched { install_ms, launch_ms, launch_ok, alive } => {
            let (status, reason) = if *launch_ok && *alive {
                (string_from_str("passed"), None)
            } else if !*alive {
                (string_from_str("failed"), Some(string_from_str("process died within startup grace period")))
            } else {
                (string_from_str("failed"), Some(string_from_str("activity launch failed")))
            };
            TestReportItem {
                app: string_from_str(app),
                package: string_from_str(package),
                status,
                install_ms: Some(*install_ms),
                launch_ms: Some(*launch_ms),
                reason,
            }
        },
    }
}

} // verus!
