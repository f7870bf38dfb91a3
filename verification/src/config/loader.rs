//! Build settings, module definitions, and the checks run over a loaded
//! configuration.

use vstd::prelude::*;
use crate::collections::{assoc_get, keys_ascending, lemma_assoc_get_at, StrMap};
use crate::config::apps::{AppConfig, AppDependencies};
use crate::config::sources::{ApkSourceEntry, PatchSourceEntry};
use crate::patcher::plan::PatcherConfig;
use crate::text::{
    chars_of, clone_opt_string, distinct_ids, lemma_distinct_from_concat, lemma_distinct_from_empty, push_distinct, clone_strings, debug_list, opt_string_view, eq_ignore_case, str_eq_ignore_case, debug_list_exec, dec, find, find_in, line_ranges, lines, pieces, push_dec, push_str, str_views, string_of,
    str_eq, string_from_str, trim, trim_range, trim_start, utf8_width, utf8_width_of, vec_contains_str,
};

verus! {

/// On-device testing settings.
#[derive(Debug, Clone)]
pub struct TestingConfig {
    pub enabled: String,
    pub startup_grace_secs: u64,
    pub install_timeout_secs: u64,
    pub logcat_lines: u32,
    pub crash_patterns: Vec<String>,
}

impl Default for TestingConfig {
    /// Every field at its type's default (zero, empty).
    fn default() -> (r: Self)
        ensures
            r.enabled@.len() == 0,
            r.startup_grace_secs == 0,
            r.install_timeout_secs == 0,
            r.logcat_lines == 0,
            r.crash_patterns@.len() == 0,
    {
        TestingConfig {
            enabled: String::new(),
            startup_grace_secs: 0,
            install_timeout_secs: 0,
            logcat_lines: 0,
            crash_patterns: Vec::new(),
        }
    }
}

/// Default testing mode.
pub fn default_testing_enabled() -> (r: String)
    ensures
        r@ == "auto"@,
{
    string_from_str("auto")
}

/// Default wait after an app is started, in seconds.
pub fn default_startup_grace() -> (r: u64)
    ensures
        r == 8,
{
    8
}

/// Default install timeout, in seconds.
pub fn default_install_timeout() -> (r: u64)
    ensures
        r == 180,
{
    180
}

/// Default number of logcat lines kept.
pub fn default_logcat_lines() -> (r: u32)
    ensures
        r == 80,
{
    80
}

/// Settings of `build.yaml`.
#[derive(Debug, Clone)]
pub struct BuildConfig {
    pub java_min_version: u32,
    pub tools_dir: String,
    pub output_dir: String,
    pub keys_dir: String,
    pub temp_dir: String,
    pub keystore: KeystoreConfig,
    pub workers: usize,
    pub download_retries: u32,
    pub download_timeout_secs: u64,
    pub version_cache: String,
    pub bundle: BundleConfig,
    pub patcher: PatcherConfig,
    pub testing: TestingConfig,
    pub asset_exclude_patterns: Vec<String>,
}

/// Default minimum Java major version.
pub fn default_java() -> (r: u32)
    ensures
        r == 17,
{
    17
}

/// Default tools directory.
pub fn default_tools() -> (r: String)
    ensures
        r@ == "./tools"@,
{
    string_from_str("./tools")
}

/// Default output directory.
pub fn default_output() -> (r: String)
    ensures
        r@ == "./output"@,
{
    string_from_str("./output")
}

/// Default keys directory.
pub fn default_keys() -> (r: String)
    ensures
        r@ == "./keys"@,
{
    string_from_str("./keys")
}

/// Default temporary directory.
pub fn default_temp() -> (r: String)
    ensures
        r@ == "./tmp"@,
{
    string_from_str("./tmp")
}

/// Default keystore validity, in days.
pub fn default_keystore_validity() -> (r: u32)
    ensures
        r == 10000,
{
    10000
}

/// Default key algorithm.
pub fn default_keystore_algorithm() -> (r: String)
    ensures
        r@ == "RSA"@,
{
    string_from_str("RSA")
}

/// Default key size, in bits.
pub fn default_keystore_size() -> (r: u32)
    ensures
        r == 4096,
{
    4096
}

/// Default signature algorithm.
pub fn default_keystore_sig_alg() -> (r: String)
    ensures
        r@ == "SHA256withRSA"@,
{
    string_from_str("SHA256withRSA")
}

/// Default distinguished name of generated keys.
pub fn default_keystore_dname() -> (r: String)
    ensures
        r@ == "CN=ReVanceX, OU=Ministry of Silly Builds, O=Thunderkex, L=CyberSpace, ST=Somewhere Over The Galaxy, C=XX"@,
{
    string_from_str(
        "CN=ReVanceX, OU=Ministry of Silly Builds, O=Thunderkex, L=CyberSpace, ST=Somewhere Over The Galaxy, C=XX",
    )
}

/// How generated keystores are made.
#[derive(Debug, Clone)]
pub struct KeystoreConfig {
    pub validity_days: u32,
    pub key_algorithm: String,
    pub key_size: u32,
    pub sig_algorithm: String,
    pub distinguished_name: String,
}

impl Default for KeystoreConfig {
    /// Every field at its documented default.
    fn default() -> (r: Self)
        ensures
            r.validity_days == 10000,
            r.key_algorithm@ == "RSA"@,
            r.key_size == 4096,
            r.sig_algorithm@ == "SHA256withRSA"@,
            r.distinguished_name@ == "CN=ReVanceX, OU=Ministry of Silly Builds, O=Thunderkex, L=CyberSpace, ST=Somewhere Over The Galaxy, C=XX"@,
    {
        KeystoreConfig {
            validity_days: default_keystore_validity(),
            key_algorithm: default_keystore_algorithm(),
            key_size: default_keystore_size(),
            sig_algorithm: default_keystore_sig_alg(),
            distinguished_name: default_keystore_dname(),
        }
    }
}

/// Default number of parallel workers.
pub fn default_workers() -> (r: usize)
    ensures
        r == 4,
{
    4
}

/// Default number of download attempts.
pub fn default_retries() -> (r: u32)
    ensures
        r == 3,
{
    3
}

/// Default download timeout, in seconds.
pub fn default_timeout() -> (r: u64)
    ensures
        r == 180,
{
    180
}

/// Default version cache file.
pub fn default_cache() -> (r: String)
    ensures
        r@ == "./tmp/version_cache.json"@,
{
    string_from_str("./tmp/version_cache.json")
}

/// Limits of the bundle module.
#[derive(Debug, Clone)]
pub struct BundleConfig {
    pub max_bytes: u64,
    pub include_stock_apks: bool,
}

/// Default size budget of a bundle, in bytes.
pub fn default_max_bytes() -> (r: u64)
    ensures
        r == 1_800_000_000,
{
    1_800_000_000
}

/// Default for flags that are on unless turned off.
pub fn default_true_bool() -> (r: bool)
    ensures
        r,
{
    true
}

impl Default for BundleConfig {
    fn default() -> (r: Self)
        ensures
            r.max_bytes == 1_800_000_000,
            r.include_stock_apks,
    {
        BundleConfig { max_bytes: default_max_bytes(), include_stock_apks: default_true_bool() }
    }
}

/// A module of `modules.yaml`: the apps it bundles.
#[derive(Debug, Clone)]
pub struct ModuleDefinition {
    pub apps: Vec<String>,
    pub disabled_apps: Vec<String>,
    pub name: Option<String>,
    pub module_id: Option<String>,
    pub zip_name: Option<String>,
}

impl Default for ModuleDefinition {
    /// No apps and no names.
    fn default() -> (r: Self)
        ensures
            r.apps@.len() == 0,
            r.disabled_apps@.len() == 0,
            r.name is None,
            r.module_id is None,
            r.zip_name is None,
    {
        ModuleDefinition {
            apps: Vec::new(),
            disabled_apps: Vec::new(),
            name: None,
            module_id: None,
            zip_name: None,
        }
    }
}

/// The contents of `modules.yaml`.
#[derive(Debug, Clone)]
pub struct ModulesFile {
    pub modules: StrMap<ModuleDefinition>,
    pub single_modules: Vec<String>,
}

impl Default for ModulesFile {
    /// No modules.
    fn default() -> (r: Self)
        ensures
            r.modules@.len() == 0,
            r.single_modules@.len() == 0,
    {
        ModulesFile { modules: StrMap::new(), single_modules: Vec::new() }
    }
}

/// Default module id.
pub fn default_module_id() -> (r: String)
    ensures
        r@ == "revancex"@,
{
    string_from_str("revancex")
}

/// Default module name.
pub fn default_module_name() -> (r: String)
    ensures
        r@ == "ReVanceX"@,
{
    string_from_str("ReVanceX")
}

/// Default module version.
pub fn default_module_version() -> (r: String)
    ensures
        r@ == "1.0"@,
{
    string_from_str("1.0")
}

/// Default module author.
pub fn default_module_author() -> (r: String)
    ensures
        r@ == "Thunderkex"@,
{
    string_from_str("Thunderkex")
}

/// Default module description.
pub fn default_module_description() -> (r: String)
    ensures
        r@ == "Patched apps bundle"@,
{
    string_from_str("Patched apps bundle")
}

/// Default minimum Magisk version code.
pub fn default_min_magisk() -> (r: u32)
    ensures
        r == 20400,
{
    20400
}

/// Default minimum KernelSU version code.
pub fn default_min_kernelsu() -> (r: u32)
    ensures
        r == 10200,
{
    10200
}

/// Overrides of `module.prop` fields.
#[derive(Debug, Clone)]
pub struct ModulePropMeta {
    pub id: Option<String>,
    pub name: Option<String>,
    pub author: Option<String>,
    pub description: Option<String>,
    pub update_json: Option<String>,
}

impl Default for ModulePropMeta {
    /// No overrides.
    fn default() -> (r: Self)
        ensures
            r.id is None,
            r.name is None,
            r.author is None,
            r.description is None,
            r.update_json is None,
    {
        ModulePropMeta { id: None, name: None, author: None, description: None, update_json: None }
    }
}

/// The metadata of the generated module (`module.yaml`).
#[derive(Debug, Clone)]
pub struct ModuleMetaConfig {
    pub id: String,
    pub name: String,
    pub version: String,
    pub author: String,
    pub description: String,
    pub update_json: String,
    pub min_magisk: u32,
    pub min_kernelsu: u32,
    pub prop: Option<ModulePropMeta>,
}

impl Default for ModuleMetaConfig {
    /// Every field at its documented default, with no overrides.
    fn default() -> (r: Self)
        ensures
            r.id@ == "revancex"@,
            r.name@ == "ReVanceX"@,
            r.version@ == "1.0"@,
            r.author@ == "Thunderkex"@,
            r.description@ == "Patched apps bundle"@,
            r.update_json@.len() == 0,
            r.min_magisk == 20400,
            r.min_kernelsu == 10200,
            r.prop is None,
    {
        ModuleMetaConfig {
            id: default_module_id(),
            name: default_module_name(),
            version: default_module_version(),
            author: default_module_author(),
            description: default_module_description(),
            update_json: String::new(),
            min_magisk: default_min_magisk(),
            min_kernelsu: default_min_kernelsu(),
            prop: None,
        }
    }
}

/// A field of the `prop` overrides, if they set it, else the base value.
pub open spec fn overridden(prop: Option<ModulePropMeta>, pick: spec_fn(ModulePropMeta) -> Option<String>, base: String) -> Seq<char> {
    match prop {
        Some(p) => match pick(p) {
            Some(s) => s@,
            None => base@,
        },
        None => base@,
    }
}

/// The chosen string of an override.
fn pick_override<'a>(o: &'a Option<String>, base: &'a String) -> (r: &'a str)
    ensures
        r@ == (match o {
            Some(s) => s@,
            None => base@,
        }),
{
    match o {
        Some(s) => s.as_str(),
        None => base.as_str(),
    }
}

impl ModuleMetaConfig {
    /// The module id, overridden by `prop.id`.
    pub fn resolved_id(&self) -> (r: &str)
        ensures
            r@ == overridden(self.prop, |p: ModulePropMeta| p.id, self.id),
    {
        match &self.prop {
            Some(p) => pick_override(&p.id, &self.id),
            None => self.id.as_str(),
        }
    }

    /// The module name, overridden by `prop.name`.
    pub fn resolved_name(&self) -> (r: &str)
        ensures
            r@ == overridden(self.prop, |p: ModulePropMeta| p.name, self.name),
    {
        match &self.prop {
            Some(p) => pick_override(&p.name, &self.name),
            None => self.name.as_str(),
        }
    }

    /// The module author, overridden by `prop.author`.
    pub fn resolved_author(&self) -> (r: &str)
        ensures
            r@ == overridden(self.prop, |p: ModulePropMeta| p.author, self.author),
    {
        match &self.prop {
            Some(p) => pick_override(&p.author, &self.author),
            None => self.author.as_str(),
        }
    }

    /// The module description, overridden by `prop.description`.
    pub fn resolved_description(&self) -> (r: &str)
        ensures
            r@ == overridden(self.prop, |p: ModulePropMeta| p.description, self.description),
    {
        match &self.prop {
            Some(p) => pick_override(&p.description, &self.description),
            None => self.description.as_str(),
        }
    }

    /// The update-json URL, overridden by `prop.update_json`.
    pub fn resolved_update_json(&self) -> (r: &str)
        ensures
            r@ == overridden(self.prop, |p: ModulePropMeta| p.update_json, self.update_json),
    {
        match &self.prop {
            Some(p) => pick_override(&p.update_json, &self.update_json),
            None => self.update_json.as_str(),
        }
    }
}

/// The contents of `module.yaml`.
#[derive(Debug, Clone)]
pub struct ModuleMetaFile {
    pub module: ModuleMetaConfig,
}

impl Default for ModuleMetaFile {
    fn default() -> (r: Self)
        ensures
            r.module.id@ == "revancex"@,
            r.module.name@ == "ReVanceX"@,
            r.module.version@ == "1.0"@,
            r.module.author@ == "Thunderkex"@,
            r.module.description@ == "Patched apps bundle"@,
            r.module.update_json@.len() == 0,
            r.module.min_magisk == 20400,
            r.module.min_kernelsu == 10200,
            r.module.prop is None,
    {
        ModuleMetaFile { module: ModuleMetaConfig::default() }
    }
}

/// The whole configuration, with every map ordered by key.
#[derive(Debug, Clone)]
pub struct Config {
    pub apps: StrMap<AppConfig>,
    pub modules: StrMap<ModuleDefinition>,
    pub cli_repo: String,
    pub cli_pattern: String,
    pub patch_sources: StrMap<PatchSourceEntry>,
    pub apk_sources: StrMap<ApkSourceEntry>,
    pub build: BuildConfig,
    pub module_meta: ModuleMetaConfig,
}

// ---------------------------------------------------------------------
// Duplicate keys in YAML text
// ---------------------------------------------------------------------

/// What a line of YAML text means to the duplicate-key check.
pub enum YamlLine {
    /// Blank, a comment, or no `key:` on it.
    Skip,
    /// A list item (`- ...`) at this indent.
    Item { indent: nat },
    /// A mapping key at this indent.
    Key { indent: nat, key: Seq<char> },
}

/// Bytes of leading whitespace.
pub open spec fn indent_of(line: Seq<char>) -> nat {
    utf8_width(line.take(line.len() - trim_start(line).len()))
}

/// How a line reads once trimmed, given its indent.
pub open spec fn classify_trimmed(t: Seq<char>, ind: nat) -> YamlLine {
    if t.len() == 0 || t[0] == '#' {
        YamlLine::Skip
    } else if t[0] == '-' {
        YamlLine::Item { indent: ind }
    } else {
        key_before(t, find(t, seq![':']), ind)
    }
}

/// The key before the first colon, if there is one and it is not blank or a
/// flow collection.
pub open spec fn key_before(t: Seq<char>, colon: Option<int>, ind: nat) -> YamlLine {
    match colon {
        Some(c) => {
            let key = trim(t.take(c));
            if key.len() == 0 || key[0] == '{' || key[0] == '[' {
                YamlLine::Skip
            } else {
                YamlLine::Key { indent: ind, key }
            }
        },
        None => YamlLine::Skip,
    }
}

/// How the duplicate-key check reads one line.
pub open spec fn classify(line: Seq<char>) -> YamlLine {
    classify_trimmed(trim(line), indent_of(line))
}

/// Open mappings: each with its indent and the keys seen in it so far.
pub open spec fn pop_deeper(st: Seq<(nat, Seq<Seq<char>>)>, ind: nat) -> Seq<(nat, Seq<Seq<char>>)>
    decreases st.len(),
{
    if st.len() > 0 && st.last().0 > ind {
        pop_deeper(st.drop_last(), ind)
    } else {
        st
    }
}

/// One line of the scan: an item closes deeper mappings; a key closes deeper
/// mappings, then joins the mapping at its indent (an error if that one has
/// it already) or opens a new one.
pub open spec fn key_step(st: Seq<(nat, Seq<Seq<char>>)>, l: YamlLine, i: int) -> Result<
    Seq<(nat, Seq<Seq<char>>)>,
    (Seq<char>, int),
> {
    match l {
        YamlLine::Skip => Ok(st),
        YamlLine::Item { indent } => Ok(pop_deeper(st, indent)),
        YamlLine::Key { indent, key } => {
            let s2 = pop_deeper(st, indent);
            if s2.len() > 0 && s2.last().0 == indent {
                if s2.last().1.contains(key) {
                    Err((key, i))
                } else {
                    Ok(s2.drop_last().push((indent, s2.last().1.push(key))))
                }
            } else {
                Ok(s2.push((indent, seq![key])))
            }
        },
    }
}

/// The scan over classified lines: the open mappings at the end, or the first
/// repeated key with its line index.
pub open spec fn key_scan(ls: Seq<YamlLine>) -> Result<Seq<(nat, Seq<Seq<char>>)>, (Seq<char>, int)>
    decreases ls.len(),
{
    if ls.len() == 0 {
        Ok(seq![])
    } else {
        match key_scan(ls.drop_last()) {
            Ok(st) => key_step(st, ls.last(), ls.len() - 1),
            Err(e) => Err(e),
        }
    }
}

/// The classified lines of a text.
pub open spec fn yaml_lines(content: Seq<char>) -> Seq<YamlLine> {
    lines(content).map_values(|l: Seq<char>| classify(l))
}

/// The first key repeated within one mapping, with its 0-based line index.
pub open spec fn duplicate_key(content: Seq<char>) -> Option<(Seq<char>, int)> {
    match key_scan(yaml_lines(content)) {
        Ok(_) => None,
        Err(e) => Some(e),
    }
}

/// A key that appears twice in one mapping.
#[derive(Debug, Clone)]
pub struct DuplicateKey {
    pub key: String,
    /// 1-based line number of the second occurrence.
    pub line: usize,
}

impl DuplicateKey {
    /// The error text.
    pub fn message(&self) -> (r: String)
        ensures
            r@ == "Duplicate key '"@ + self.key@ + "' found at line "@ + dec(self.line as nat),
    {
        let mut s = string_from_str("Duplicate key '");
        push_str(&mut s, self.key.as_str());
        push_str(&mut s, "' found at line ");
        push_dec(&mut s, self.line as u64);
        s
    }
}

/// How a line is read, in executable form.
enum LineKind {
    Skip,
    Item(usize),
    Key(usize, String),
}

spec fn kind_model(k: LineKind) -> YamlLine {
    match k {
        LineKind::Skip => YamlLine::Skip,
        LineKind::Item(i) => YamlLine::Item { indent: i as nat },
        LineKind::Key(i, s) => YamlLine::Key { indent: i as nat, key: s@ },
    }
}

/// The key of a trimmed line that is neither blank, a comment nor an item.
fn classify_key(v: &[char], ta: usize, tb: usize, ind: usize) -> (r: LineKind)
    requires
        ta < tb <= v@.len(),
        v@[ta as int] != '#',
        v@[ta as int] != '-',
    ensures
        kind_model(r) == classify_trimmed(v@.subrange(ta as int, tb as int), ind as nat),
{
    let ghost t = v@.subrange(ta as int, tb as int);
    assert(t[0] == v@[ta as int]);
    let colon: [char; 1] = [':'];
    assert(colon@ =~= seq![':']);
    let found = find_in(v, ta, tb, colon.as_slice());
    let ghost f = find(t, seq![':']);
    assert(classify_trimmed(t, ind as nat) == key_before(t, f, ind as nat));
    match found {
        Some(c) => {
            assert(f == Some(c - ta));
            assert(t.take(c - ta) =~= v@.subrange(ta as int, c as int));
            let (ka, kb) = trim_range(v, ta, c);
            if ka == kb {
                return LineKind::Skip;
            }
            assert(v@.subrange(ka as int, kb as int)[0] == v@[ka as int]);
            if v[ka] == '{' || v[ka] == '[' {
                return LineKind::Skip;
            }
            LineKind::Key(ind, string_of(v, ka, kb))
        },
        None => LineKind::Skip,
    }
}

fn classify_line(v: &[char], a: usize, b: usize) -> (r: LineKind)
    requires
        a <= b <= v@.len(),
        utf8_width(v@) <= usize::MAX,
    ensures
        kind_model(r) == classify(v@.subrange(a as int, b as int)),
{
    let ghost line = v@.subrange(a as int, b as int);
    let (ta, tb) = trim_range(v, a, b);
    let ghost t = v@.subrange(ta as int, tb as int);
    let ind = utf8_width_of(v, a, ta);
    proof {
        assert(line.take(line.len() - trim_start(line).len()) =~= v@.subrange(a as int, ta as int));
        assert(classify(line) == classify_trimmed(t, ind as nat));
    }
    if ta == tb {
        return LineKind::Skip;
    }
    assert(t[0] == v@[ta as int]);
    if v[ta] == '#' {
        return LineKind::Skip;
    }
    if v[ta] == '-' {
        return LineKind::Item(ind);
    }
    classify_key(v, ta, tb, ind)
}

spec fn stack_model(st: Seq<(usize, Vec<String>)>) -> Seq<(nat, Seq<Seq<char>>)> {
    st.map_values(|e: (usize, Vec<String>)| (e.0 as nat, str_views(e.1@)))
}

/// Closes the mappings deeper than `ind`.
fn pop_deeper_exec(stack: &mut Vec<(usize, Vec<String>)>, ind: usize)
    ensures
        stack_model(final(stack)@) == pop_deeper(stack_model(old(stack)@), ind as nat),
{
    let ghost target = pop_deeper(stack_model(stack@), ind as nat);
    while stack.len() > 0 && stack[stack.len() - 1].0 > ind
        invariant
            pop_deeper(stack_model(stack@), ind as nat) == target,
        decreases stack@.len(),
    {
        let ghost m0 = stack_model(stack@);
        stack.pop();
        assert(stack_model(stack@) =~= m0.drop_last());
    }
}

/// Applies one classified line to the open mappings; a repeated key is
/// returned instead.
fn scan_line(stack: &mut Vec<(usize, Vec<String>)>, kind: LineKind, i: usize) -> (r: Option<String>)
    ensures
        match key_step(stack_model(old(stack)@), kind_model(kind), i as int) {
            Ok(st) => r is None && stack_model(final(stack)@) == st,
            Err(e) => r matches Some(k) && e == (k@, i as int),
        },
{
    match kind {
        LineKind::Skip => None,
        LineKind::Item(ind) => {
            pop_deeper_exec(stack, ind);
            None
        },
        LineKind::Key(ind, key) => {
            pop_deeper_exec(stack, ind);
            let n = stack.len();
            if n > 0 && stack[n - 1].0 == ind {
                proof {
                    assert(stack_model(stack@).last().1 == str_views(stack@[n - 1].1@));
                }
                let seen = vec_contains_str(&stack[n - 1].1, key.as_str());
                if seen {
                    return Some(key);
                }
                let ghost m0 = stack_model(stack@);
                let (top_ind, mut keys) = stack.pop().unwrap();
                let ghost k0 = str_views(keys@);
                keys.push(key);
                assert(str_views(keys@) =~= k0.push(key@));
                stack.push((top_ind, keys));
                assert(stack_model(stack@) =~= m0.drop_last().push((ind as nat, m0.last().1.push(key@))));
            } else {
                let ghost m0 = stack_model(stack@);
                let mut keys: Vec<String> = Vec::new();
                keys.push(key);
                assert(str_views(keys@) =~= seq![key@]);
                stack.push((ind, keys));
                assert(stack_model(stack@) =~= m0.push((ind as nat, seq![key@])));
            }
            None
        },
    }
}

proof fn lemma_scan_err_persists(ls: Seq<YamlLine>, j: int, e: (Seq<char>, int))
    requires
        0 <= j <= ls.len(),
        key_scan(ls.take(j)) == Err::<Seq<(nat, Seq<Seq<char>>)>, (Seq<char>, int)>(e),
    ensures
        key_scan(ls) == Err::<Seq<(nat, Seq<Seq<char>>)>, (Seq<char>, int)>(e),
    decreases ls.len() - j,
{
    if j < ls.len() {
        assert(ls.take(j + 1).drop_last() =~= ls.take(j));
        lemma_scan_err_persists(ls, j + 1, e);
    } else {
        assert(ls.take(j) =~= ls);
    }
}

/// Line `j < ls.len()` holds `key` at indent `ind`.
pub open spec fn seen_at(ls: Seq<YamlLine>, ind: nat, key: Seq<char>) -> bool {
    exists|j: int| 0 <= j < ls.len() && ls[j] == (YamlLine::Key { indent: ind, key })
}

/// Every key of every open mapping was read from some line at that mapping's indent.
pub open spec fn keys_seen(ls: Seq<YamlLine>, st: Seq<(nat, Seq<Seq<char>>)>) -> bool {
    forall|p: int, q: int|
        0 <= p < st.len() && 0 <= q < st[p].1.len() ==> #[trigger] seen_at(ls, st[p].0, st[p].1[q])
}

proof fn lemma_pop_deeper_prefix(st: Seq<(nat, Seq<Seq<char>>)>, ind: nat)
    ensures
        pop_deeper(st, ind).len() <= st.len(),
        forall|p: int| 0 <= p < pop_deeper(st, ind).len() ==> #[trigger] pop_deeper(st, ind)[p] == st[p],
    decreases st.len(),
{
    if st.len() > 0 && st.last().0 > ind {
        lemma_pop_deeper_prefix(st.drop_last(), ind);
    }
}

proof fn lemma_seen_grows(ls: Seq<YamlLine>, ind: nat, key: Seq<char>)
    requires
        ls.len() > 0,
        seen_at(ls.drop_last(), ind, key),
    ensures
        seen_at(ls, ind, key),
{
    let j = choose|j: int| 0 <= j < ls.drop_last().len() && ls.drop_last()[j] == (YamlLine::Key { indent: ind, key });
    assert(ls[j] == ls.drop_last()[j]);
}

/// The reported line holds the key at an indent where an earlier line holds it too.
pub open spec fn repeated_at(ls: Seq<YamlLine>, e: (Seq<char>, int)) -> bool {
    &&& 0 <= e.1 < ls.len()
    &&& exists|ind: nat|
        ls[e.1] == (YamlLine::Key { indent: ind, key: e.0 }) && #[trigger] seen_at(ls.take(e.1), ind, e.0)
}

proof fn lemma_key_scan_sound(ls: Seq<YamlLine>)
    ensures
        key_scan(ls) is Ok ==> keys_seen(ls, key_scan(ls)->Ok_0),
        key_scan(ls) is Err ==> repeated_at(ls, key_scan(ls)->Err_0),
    decreases ls.len(),
{
    if ls.len() == 0 {
        return;
    }
    let pre = ls.drop_last();
    let n = ls.len() - 1;
    lemma_key_scan_sound(pre);
    match key_scan(pre) {
        Err((k, i)) => {
            let ind = choose|ind: nat| pre[i] == (YamlLine::Key { indent: ind, key: k }) && #[trigger] seen_at(pre.take(i), ind, k);
            assert(pre.take(i) =~= ls.take(i));
            assert(ls[i] == pre[i]);
            assert(seen_at(ls.take(i), ind, k));
            assert(repeated_at(ls, (k, i)));
            assert(key_scan(ls) == Err::<Seq<(nat, Seq<Seq<char>>)>, (Seq<char>, int)>((k, i)));
        },
        Ok(st0) => {
            assert(key_scan(ls) == key_step(st0, ls.last(), n));
            assert forall|p: int, q: int| 0 <= p < st0.len() && 0 <= q < st0[p].1.len() implies #[trigger] seen_at(ls, st0[p].0, st0[p].1[q]) by {
                assert(seen_at(pre, st0[p].0, st0[p].1[q]));
                lemma_seen_grows(ls, st0[p].0, st0[p].1[q]);
            }
            match ls.last() {
                YamlLine::Skip => {
                    assert(keys_seen(ls, st0));
                    assert(key_scan(ls) == Ok::<Seq<(nat, Seq<Seq<char>>)>, (Seq<char>, int)>(st0));
                },
                YamlLine::Item { indent } => {
                    let s2 = pop_deeper(st0, indent);
                    lemma_pop_deeper_prefix(st0, indent);
                    assert forall|p: int, q: int| 0 <= p < s2.len() && 0 <= q < s2[p].1.len() implies #[trigger] seen_at(ls, s2[p].0, s2[p].1[q]) by {
                        assert(s2[p] == st0[p]);
                    }
                    assert(keys_seen(ls, s2));
                    assert(key_scan(ls) == Ok::<Seq<(nat, Seq<Seq<char>>)>, (Seq<char>, int)>(s2));
                },
                YamlLine::Key { indent, key } => {
                    let s2 = pop_deeper(st0, indent);
                    lemma_pop_deeper_prefix(st0, indent);
                    assert forall|p: int, q: int| 0 <= p < s2.len() && 0 <= q < s2[p].1.len() implies #[trigger] seen_at(ls, s2[p].0, s2[p].1[q]) by {
                        assert(s2[p] == st0[p]);
                    }
                    assert(ls[n] == (YamlLine::Key { indent, key }));
                    assert(seen_at(ls, indent, key));
                    if s2.len() > 0 && s2.last().0 == indent {
                        let top = s2.last();
                        if top.1.contains(key) {
                            let q = choose|q: int| 0 <= q < top.1.len() && top.1[q] == key;
                            let p = s2.len() - 1;
                            assert(s2[p] == st0[p]);
                            assert(seen_at(pre, st0[p].0, st0[p].1[q]));
                            assert(pre =~= ls.take(n));
                            assert(seen_at(ls.take(n), indent, key));
                            assert(key_scan(ls) == Err::<Seq<(nat, Seq<Seq<char>>)>, (Seq<char>, int)>((key, n)));
                            assert(ls[n] == (YamlLine::Key { indent, key }) && seen_at(ls.take(n), indent, key));
                            let e = (key, n);
                            assert(ls[e.1] == (YamlLine::Key { indent, key: e.0 }));
                            assert(seen_at(ls.take(e.1), indent, e.0));
                            assert(repeated_at(ls, e));
                        } else {
                            let st = s2.drop_last().push((indent, top.1.push(key)));
                            assert forall|p: int, q: int| 0 <= p < st.len() && 0 <= q < st[p].1.len() implies #[trigger] seen_at(ls, st[p].0, st[p].1[q]) by {
                                if p < s2.len() - 1 {
                                    assert(st[p] == s2[p]);
                                } else if q < top.1.len() {
                                    assert(st[p].1[q] == s2[s2.len() - 1].1[q]);
                                }
                            }
                            assert(keys_seen(ls, st));
                            assert(key_scan(ls) == Ok::<Seq<(nat, Seq<Seq<char>>)>, (Seq<char>, int)>(st));
                        }
                    } else {
                        let st = s2.push((indent, seq![key]));
                        assert forall|p: int, q: int| 0 <= p < st.len() && 0 <= q < st[p].1.len() implies #[trigger] seen_at(ls, st[p].0, st[p].1[q]) by {
                            if p < s2.len() {
                                assert(st[p] == s2[p]);
                            }
                        }
                        assert(keys_seen(ls, st));
                        assert(key_scan(ls) == Ok::<Seq<(nat, Seq<Seq<char>>)>, (Seq<char>, int)>(st));
                    }
                },
            }
        },
    }
}

/// A key that the check reports is repeated: the reported line holds it as a
/// mapping key, and an earlier line holds the same key at the same indent.
pub proof fn lemma_duplicate_key_seen_before(content: Seq<char>)
    requires
        duplicate_key(content) is Some,
    ensures
        ({
            let (k, i) = duplicate_key(content)->0;
            let ls = yaml_lines(content);
            &&& 0 <= i < ls.len()
            &&& exists|ind: nat|
                #![trigger seen_at(ls.take(i), ind, k)]
                ls[i] == (YamlLine::Key { indent: ind, key: k }) && exists|j: int|
                    0 <= j < i && ls[j] == (YamlLine::Key { indent: ind, key: k })
        }),
{
    let ls = yaml_lines(content);
    lemma_key_scan_sound(ls);
    let (k, i) = duplicate_key(content)->0;
    let ind = choose|ind: nat| ls[i] == (YamlLine::Key { indent: ind, key: k }) && #[trigger] seen_at(ls.take(i), ind, k);
    let j = choose|j: int| 0 <= j < ls.take(i).len() && ls.take(i)[j] == (YamlLine::Key { indent: ind, key: k });
    assert(ls[j] == ls.take(i)[j]);
    assert(seen_at(ls.take(i), ind, k));
}

#[verifier::spinoff_prover]
#[verifier::rlimit(60)]
/// Checks that no mapping of the YAML text repeats a key, by indentation:
/// the first repeated key is reported with its 1-based line number.
pub fn check_yaml_duplicate_keys(content: &str) -> (r: Result<(), DuplicateKey>)
    requires
        utf8_width(content@) <= usize::MAX,
    ensures
        match r {
            Ok(()) => duplicate_key(content@) is None,
            Err(e) => e.line >= 1 && duplicate_key(content@) == Some((e.key@, e.line - 1)),
        },
{
    let v = chars_of(content);
    let rs = line_ranges(v.as_slice(), 0, v.len());
    assert(v@.subrange(0, v@.len() as int) =~= v@);
    let ghost ls = yaml_lines(content@);
    assert(ls.len() == rs@.len());
    let mut stack: Vec<(usize, Vec<String>)> = Vec::new();
    let mut i: usize = 0;
    assert(ls.take(0) =~= Seq::<YamlLine>::empty());
    assert(stack_model(stack@) =~= Seq::<(nat, Seq<Seq<char>>)>::empty());
    while i < rs.len()
        invariant
            i <= rs@.len(),
            v@ == content@,
            utf8_width(v@) <= usize::MAX,
            ls == yaml_lines(content@),
            ls.len() == rs@.len(),
            pieces(v@, rs@) == lines(v@),
            crate::text::ranges_within(rs@, 0, v@.len() as int),
            key_scan(ls.take(i as int)) == Ok::<Seq<(nat, Seq<Seq<char>>)>, (Seq<char>, int)>(stack_model(stack@)),
        decreases rs.len() - i,
    {
        let (a, b) = rs[i];
        proof {
            assert(0 <= rs@[i as int].0 <= rs@[i as int].1 <= v@.len());
            assert(pieces(v@, rs@)[i as int] == v@.subrange(a as int, b as int));
            assert(ls[i as int] == classify(v@.subrange(a as int, b as int)));
            assert(ls.take(i + 1).drop_last() =~= ls.take(i as int));
            assert(ls.take(i + 1).last() == ls[i as int]);
        }
        let kind = classify_line(v.as_slice(), a, b);
        if let Some(key) = scan_line(&mut stack, kind, i) {
            proof {
                lemma_scan_err_persists(ls, i + 1, (key@, i as int));
            }
            return Err(DuplicateKey { key, line: i + 1 });
        }
        i += 1;
    }
    assert(ls.take(ls.len() as int) =~= ls);
    Ok(())
}

// ---------------------------------------------------------------------
// Validation
// ---------------------------------------------------------------------

/// Why a configuration is refused.
#[derive(Debug, Clone)]
pub enum ConfigError {
    UnknownDependency { app: String, dep: String },
    MissingPackage { app: String },
    MissingApp { module: String, app: String },
    DisabledApp { module: String, app: String },
    PackageCollision { module: String, apps: Vec<String>, package: String },
}

/// A refusal with its strings taken by view.
pub enum ConfigErrorModel {
    UnknownDependency { app: Seq<char>, dep: Seq<char> },
    MissingPackage { app: Seq<char> },
    MissingApp { module: Seq<char>, app: Seq<char> },
    DisabledApp { module: Seq<char>, app: Seq<char> },
    PackageCollision { module: Seq<char>, apps: Seq<Seq<char>>, package: Seq<char> },
}

pub open spec fn error_model(e: ConfigError) -> ConfigErrorModel {
    match e {
        ConfigError::UnknownDependency { app, dep } => ConfigErrorModel::UnknownDependency { app: app@, dep: dep@ },
        ConfigError::MissingPackage { app } => ConfigErrorModel::MissingPackage { app: app@ },
        ConfigError::MissingApp { module, app } => ConfigErrorModel::MissingApp { module: module@, app: app@ },
        ConfigError::DisabledApp { module, app } => ConfigErrorModel::DisabledApp { module: module@, app: app@ },
        ConfigError::PackageCollision { module, apps, package } => ConfigErrorModel::PackageCollision {
            module: module@,
            apps: str_views(apps@),
            package: package@,
        },
    }
}

/// The error text of a refusal.
pub open spec fn error_text(e: ConfigErrorModel) -> Seq<char> {
    match e {
        ConfigErrorModel::UnknownDependency { app, dep } => "App '"@ + app + "' has unknown dependency '"@ + dep + "'"@,
        ConfigErrorModel::MissingPackage { app } => "App '"@ + app + "' is enabled but has no package defined"@,
        ConfigErrorModel::MissingApp { module, app } => "Module '"@ + module + "' references non-existent app '"@ + app + "'"@,
        ConfigErrorModel::DisabledApp { module, app } => "Module '"@ + module + "' references disabled app '"@ + app + "'"@,
        ConfigErrorModel::PackageCollision { module, apps, package } => "Package collision in module '"@ + module
            + "': multiple apps "@ + debug_list(apps) + " share package '"@ + package + "'"@,
    }
}

impl ConfigError {
    /// The error text.
    pub fn message(&self) -> (r: String)
        ensures
            r@ == error_text(error_model(*self)),
    {
        match self {
            ConfigError::UnknownDependency { app, dep } => {
                let mut s = string_from_str("App '");
                push_str(&mut s, app.as_str());
                push_str(&mut s, "' has unknown dependency '");
                push_str(&mut s, dep.as_str());
                push_str(&mut s, "'");
                s
            },
            ConfigError::MissingPackage { app } => {
                let mut s = string_from_str("App '");
                push_str(&mut s, app.as_str());
                push_str(&mut s, "' is enabled but has no package defined");
                s
            },
            ConfigError::MissingApp { module, app } => {
                let mut s = string_from_str("Module '");
                push_str(&mut s, module.as_str());
                push_str(&mut s, "' references non-existent app '");
                push_str(&mut s, app.as_str());
                push_str(&mut s, "'");
                s
            },
            ConfigError::DisabledApp { module, app } => {
                let mut s = string_from_str("Module '");
                push_str(&mut s, module.as_str());
                push_str(&mut s, "' references disabled app '");
                push_str(&mut s, app.as_str());
                push_str(&mut s, "'");
                s
            },
            ConfigError::PackageCollision { module, apps, package } => {
                let mut s = string_from_str("Package collision in module '");
                push_str(&mut s, module.as_str());
                push_str(&mut s, "': multiple apps ");
                let l = debug_list_exec(apps);
                push_str(&mut s, l.as_str());
                push_str(&mut s, " share package '");
                push_str(&mut s, package.as_str());
                push_str(&mut s, "'");
                s
            },
        }
    }
}

/// The first name that is not a configured app.
pub open spec fn first_unknown(names: Seq<Seq<char>>, apps: Seq<(Seq<char>, AppConfig)>) -> Option<Seq<char>>
    decreases names.len(),
{
    if names.len() == 0 {
        None
    } else if assoc_get(apps, names[0]) is None {
        Some(names[0])
    } else {
        first_unknown(names.drop_first(), apps)
    }
}

/// What is wrong with one app, if anything.
pub open spec fn app_error(id: Seq<char>, app: AppConfig, apps: Seq<(Seq<char>, AppConfig)>, strict: bool) -> Option<ConfigErrorModel> {
    match first_unknown(app.dependencies.names(), apps) {
        Some(dep) => Some(ConfigErrorModel::UnknownDependency { app: id, dep }),
        None => if strict && app.enabled && app.package@.len() == 0 {
            Some(ConfigErrorModel::MissingPackage { app: id })
        } else {
            None
        },
    }
}

/// The first error over the apps, in key order.
pub open spec fn apps_error(es: Seq<(Seq<char>, AppConfig)>, apps: Seq<(Seq<char>, AppConfig)>, strict: bool) -> Option<ConfigErrorModel>
    decreases es.len(),
{
    if es.len() == 0 {
        None
    } else {
        match apps_error(es.drop_last(), apps, strict) {
            Some(e) => Some(e),
            None => app_error(es.last().0, es.last().1, apps, strict),
        }
    }
}

/// The first app of a module that is missing or disabled.
pub open spec fn module_app_error(module: Seq<char>, ids: Seq<Seq<char>>, apps: Seq<(Seq<char>, AppConfig)>) -> Option<ConfigErrorModel>
    decreases ids.len(),
{
    if ids.len() == 0 {
        None
    } else {
        match module_app_error(module, ids.drop_last(), apps) {
            Some(e) => Some(e),
            None => match assoc_get(apps, ids.last()) {
                None => Some(ConfigErrorModel::MissingApp { module, app: ids.last() }),
                Some(a) => if !a.enabled {
                    Some(ConfigErrorModel::DisabledApp { module, app: ids.last() })
                } else {
                    None
                },
            },
        }
    }
}

/// The package of a configured app.
pub open spec fn package_of(apps: Seq<(Seq<char>, AppConfig)>, id: Seq<char>) -> Seq<char> {
    assoc_get(apps, id)->0.package@
}

/// Selects the ids whose app has package `p`.
pub open spec fn has_package(apps: Seq<(Seq<char>, AppConfig)>, p: Seq<char>) -> spec_fn(Seq<char>) -> bool {
    |x: Seq<char>| package_of(apps, x) == p
}

/// Position `i` shares its package with another position.
pub open spec fn shares_package(ids: Seq<Seq<char>>, apps: Seq<(Seq<char>, AppConfig)>, i: int) -> bool {
    exists|j: int| 0 <= j < ids.len() && j != i && package_of(apps, ids[j]) == package_of(apps, ids[i])
}

/// The ids of a module that share the package of the earliest id whose
/// package is shared, with that package.
pub open spec fn collision(module: Seq<char>, ids: Seq<Seq<char>>, apps: Seq<(Seq<char>, AppConfig)>) -> Option<ConfigErrorModel> {
    if exists|i: int| 0 <= i < ids.len() && #[trigger] shares_package(ids, apps, i) {
        let i = choose|i: int| 0 <= i < ids.len() && #[trigger] shares_package(ids, apps, i)
            && forall|k: int| 0 <= k < i ==> !shares_package(ids, apps, k);
        let p = package_of(apps, ids[i]);
        Some(ConfigErrorModel::PackageCollision {
            module,
            apps: ids.filter(has_package(apps, p)),
            package: p,
        })
    } else {
        None
    }
}

/// What is wrong with one module, if anything.
pub open spec fn module_error(module: Seq<char>, ids: Seq<Seq<char>>, apps: Seq<(Seq<char>, AppConfig)>) -> Option<ConfigErrorModel> {
    match module_app_error(module, ids, apps) {
        Some(e) => Some(e),
        None => collision(module, ids, apps),
    }
}

/// The first error over the modules, in key order.
pub open spec fn modules_error(ms: Seq<(Seq<char>, ModuleDefinition)>, apps: Seq<(Seq<char>, AppConfig)>) -> Option<ConfigErrorModel>
    decreases ms.len(),
{
    if ms.len() == 0 {
        None
    } else {
        match modules_error(ms.drop_last(), apps) {
            Some(e) => Some(e),
            None => module_error(ms.last().0, str_views(ms.last().1.apps@), apps),
        }
    }
}

/// The first reason to refuse the configuration: apps are checked for
/// unknown dependencies (and, when strict, for a missing package), then,
/// when strict, modules for missing or disabled apps and shared packages.
pub open spec fn config_error(cfg: Config, strict: bool) -> Option<ConfigErrorModel> {
    match apps_error(cfg.apps@, cfg.apps@, strict) {
        Some(e) => Some(e),
        None => if strict {
            modules_error(cfg.modules@, cfg.apps@)
        } else {
            None
        },
    }
}

proof fn lemma_first_unknown_at(names: Seq<Seq<char>>, apps: Seq<(Seq<char>, AppConfig)>, k: int)
    requires
        0 <= k <= names.len(),
        forall|j: int| 0 <= j < k ==> assoc_get(apps, #[trigger] names[j]) is Some,
        k == names.len() || assoc_get(apps, names[k]) is None,
    ensures
        first_unknown(names, apps) == (if k == names.len() {
            None
        } else {
            Some(names[k])
        }),
    decreases k,
{
    if k > 0 {
        assert(assoc_get(apps, names[0]) is Some);
        assert forall|j: int| 0 <= j < k - 1 implies assoc_get(apps, #[trigger] names.drop_first()[j]) is Some by {
            assert(names.drop_first()[j] == names[j + 1]);
        }
        lemma_first_unknown_at(names.drop_first(), apps, k - 1);
    }
}

/// Every dependency named, non-root before root.
fn dependency_names(d: &AppDependencies) -> (r: Vec<String>)
    ensures
        str_views(r@) == d.names(),
{
    match d {
        AppDependencies::Flat(list) => clone_strings(list),
        AppDependencies::ModeAware { non_root, root } => {
            let mut out = clone_strings(non_root);
            let mut i: usize = 0;
            let ghost a = str_views(non_root@);
            let ghost b = str_views(root@);
            while i < root.len()
                invariant
                    i <= root@.len(),
                    a == str_views(non_root@),
                    b == str_views(root@),
                    str_views(out@) == a + b.take(i as int),
                decreases root.len() - i,
            {
                let ghost o0 = str_views(out@);
                out.push(string_from_str(root[i].as_str()));
                assert(str_views(out@) =~= o0.push(b[i as int]));
                assert(b.take(i + 1) =~= b.take(i as int).push(b[i as int]));
                assert(a + b.take(i + 1) =~= (a + b.take(i as int)).push(b[i as int]));
                i += 1;
            }
            assert(b.take(root@.len() as int) =~= b);
            out
        },
    }
}

/// The first dependency that is not a configured app.
fn unknown_dependency(d: &AppDependencies, apps: &StrMap<AppConfig>) -> (r: Option<String>)
    ensures
        match r {
            Some(s) => first_unknown(d.names(), apps@) == Some(s@),
            None => first_unknown(d.names(), apps@) is None,
        },
{
    let names = dependency_names(d);
    let ghost nv = str_views(names@);
    let mut k: usize = 0;
    while k < names.len()
        invariant
            k <= names@.len(),
            nv == str_views(names@),
            nv == d.names(),
            forall|j: int| 0 <= j < k ==> assoc_get(apps@, #[trigger] nv[j]) is Some,
        decreases names.len() - k,
    {
        if !apps.contains_key(names[k].as_str()) {
            proof {
                lemma_first_unknown_at(nv, apps@, k as int);
            }
            return Some(string_from_str(names[k].as_str()));
        }
        k += 1;
    }
    proof {
        lemma_first_unknown_at(nv, apps@, k as int);
    }
    None
}

/// What is wrong with one app, if anything.
fn check_app(id: &String, app: &AppConfig, apps: &StrMap<AppConfig>, strict: bool) -> (r: Option<ConfigError>)
    ensures
        match r {
            Some(e) => app_error(id@, *app, apps@, strict) == Some(error_model(e)),
            None => app_error(id@, *app, apps@, strict) is None,
        },
{
    match unknown_dependency(&app.dependencies, apps) {
        Some(dep) => Some(ConfigError::UnknownDependency { app: string_from_str(id.as_str()), dep }),
        None => {
            if strict && app.enabled && app.package.as_str().is_empty() {
                Some(ConfigError::MissingPackage { app: string_from_str(id.as_str()) })
            } else {
                None
            }
        },
    }
}

proof fn lemma_first_shared(ids: Seq<Seq<char>>, apps: Seq<(Seq<char>, AppConfig)>, i: int)
    requires
        0 <= i < ids.len(),
        shares_package(ids, apps, i),
        forall|k: int| 0 <= k < i ==> !shares_package(ids, apps, k),
    ensures
        (choose|c: int| 0 <= c < ids.len() && #[trigger] shares_package(ids, apps, c)
            && forall|k: int| 0 <= k < c ==> !shares_package(ids, apps, k)) == i,
{
    let c = choose|c: int| 0 <= c < ids.len() && #[trigger] shares_package(ids, apps, c)
        && forall|k: int| 0 <= k < c ==> !shares_package(ids, apps, k);
    assert(0 <= c < ids.len() && shares_package(ids, apps, c) && forall|k: int| 0 <= k < c ==> !shares_package(ids, apps, k));
    if c < i {
        assert(!shares_package(ids, apps, c));
    }
    if i < c {
        assert(!shares_package(ids, apps, i));
    }
}

/// The ids whose package is `pk[i]`, in order.
fn ids_with_package(ids: &Vec<String>, pk: &Vec<String>, i: usize, Ghost(apps): Ghost<Seq<(Seq<char>, AppConfig)>>) -> (r: Vec<String>)
    requires
        pk@.len() == ids@.len(),
        i < ids@.len(),
        forall|x: int| 0 <= x < ids@.len() ==> (#[trigger] pk@[x])@ == package_of(apps, ids@[x]@),
    ensures
        str_views(r@) == str_views(ids@).filter(has_package(apps, pk@[i as int]@)),
{
    let ghost pred = has_package(apps, pk@[i as int]@);
    let ghost sv = str_views(ids@);
    let mut out: Vec<String> = Vec::new();
    let mut x: usize = 0;
    proof {
        reveal(Seq::filter);
        assert(sv.take(0) =~= Seq::<Seq<char>>::empty());
        assert(str_views(out@) =~= sv.take(0).filter(pred));
    }
    while x < ids.len()
        invariant
            x <= ids@.len(),
            pk@.len() == ids@.len(),
            i < ids@.len(),
            sv == str_views(ids@),
            pred == has_package(apps, pk@[i as int]@),
            forall|y: int| 0 <= y < ids@.len() ==> (#[trigger] pk@[y])@ == package_of(apps, ids@[y]@),
            str_views(out@) == sv.take(x as int).filter(pred),
        decreases ids.len() - x,
    {
        proof {
            assert(sv.take(x + 1) =~= sv.take(x as int).push(ids@[x as int]@));
            sv.take(x as int).lemma_filter_push(ids@[x as int]@, pred);
            assert(pk@[x as int]@ == package_of(apps, ids@[x as int]@));
        }
        if str_eq(pk[x].as_str(), pk[i].as_str()) {
            let ghost o0 = str_views(out@);
            out.push(string_from_str(ids[x].as_str()));
            assert(str_views(out@) =~= o0.push(ids@[x as int]@));
        }
        x += 1;
    }
    assert(sv.take(ids@.len() as int) =~= sv);
    out
}

/// What is wrong with one module, if anything.
fn check_module(name: &String, def: &ModuleDefinition, apps: &StrMap<AppConfig>) -> (r: Option<ConfigError>)
    ensures
        match r {
            Some(e) => module_error(name@, str_views(def.apps@), apps@) == Some(error_model(e)),
            None => module_error(name@, str_views(def.apps@), apps@) is None,
        },
{
    let ids = &def.apps;
    let ghost sv = str_views(ids@);
    let mut pk: Vec<String> = Vec::new();
    let mut k: usize = 0;
    while k < ids.len()
        invariant
            k <= ids@.len(),
            sv == str_views(ids@),
            sv == str_views(def.apps@),
            pk@.len() == k,
            module_app_error(name@, sv.take(k as int), apps@) is None,
            forall|x: int| 0 <= x < k ==> (#[trigger] pk@[x])@ == package_of(apps@, ids@[x]@),
        decreases ids.len() - k,
    {
        proof {
            assert(sv.take(k + 1).drop_last() =~= sv.take(k as int));
            assert(sv.take(k + 1).last() == ids@[k as int]@);
        }
        match apps.get(ids[k].as_str()) {
            None => {
                proof {
                    assert(module_app_error(name@, sv.take(k + 1), apps@) == Some(ConfigErrorModel::MissingApp { module: name@, app: ids@[k as int]@ }));
                    lemma_module_error_persists(name@, sv, k + 1, apps@);
                }
                let e = ConfigError::MissingApp {
                    module: string_from_str(name.as_str()),
                    app: string_from_str(ids[k].as_str()),
                };
                return Some(e);
            },
            Some(a) => {
                if !a.enabled {
                    proof {
                        assert(module_app_error(name@, sv.take(k + 1), apps@) == Some(ConfigErrorModel::DisabledApp { module: name@, app: ids@[k as int]@ }));
                        lemma_module_error_persists(name@, sv, k + 1, apps@);
                    }
                    return Some(ConfigError::DisabledApp {
                        module: string_from_str(name.as_str()),
                        app: string_from_str(ids[k].as_str()),
                    });
                }
                pk.push(string_from_str(a.package.as_str()));
            },
        }
        k += 1;
    }
    assert(sv.take(ids@.len() as int) =~= sv);
    let n = ids.len();
    let mut i: usize = 0;
    while i < n
        invariant
            i <= n == ids@.len() == pk@.len(),
            sv == str_views(ids@),
            sv == str_views(def.apps@),
            module_app_error(name@, sv, apps@) is None,
            forall|x: int| 0 <= x < n ==> (#[trigger] pk@[x])@ == package_of(apps@, ids@[x]@),
            forall|c: int| 0 <= c < i ==> !shares_package(sv, apps@, c),
        decreases n - i,
    {
        let mut j: usize = 0;
        let mut shared = false;
        while j < n
            invariant
                j <= n == ids@.len() == pk@.len(),
                i < n,
                sv == str_views(ids@),
                forall|x: int| 0 <= x < n ==> (#[trigger] pk@[x])@ == package_of(apps@, ids@[x]@),
                shared <==> exists|y: int| 0 <= y < j && y != i && package_of(apps@, #[trigger] sv[y]) == package_of(apps@, sv[i as int]),
            decreases n - j,
        {
            if j != i && str_eq(pk[j].as_str(), pk[i].as_str()) {
                shared = true;
                assert(package_of(apps@, sv[j as int]) == package_of(apps@, sv[i as int]));
            }
            j += 1;
        }
        if shared {
            let same = ids_with_package(ids, &pk, i, Ghost(apps@));
            proof {
                let y = choose|y: int| 0 <= y < n && y != i && package_of(apps@, #[trigger] sv[y]) == package_of(apps@, sv[i as int]);
                assert(shares_package(sv, apps@, i as int));
                lemma_first_shared(sv, apps@, i as int);
                assert(pk@[i as int]@ == package_of(apps@, sv[i as int]));
                assert(collision(name@, sv, apps@) == Some(ConfigErrorModel::PackageCollision {
                    module: name@,
                    apps: sv.filter(has_package(apps@, pk@[i as int]@)),
                    package: pk@[i as int]@,
                }));
            }
            return Some(ConfigError::PackageCollision {
                module: string_from_str(name.as_str()),
                apps: same,
                package: string_from_str(pk[i].as_str()),
            });
        }
        proof {
            assert(!shares_package(sv, apps@, i as int)) by {
                if shares_package(sv, apps@, i as int) {
                    let y = choose|y: int| 0 <= y < sv.len() && y != i && package_of(apps@, sv[y]) == package_of(apps@, sv[i as int]);
                    assert(package_of(apps@, sv[y]) == package_of(apps@, sv[i as int]));
                }
            }
        }
        i += 1;
    }
    None
}

proof fn lemma_module_error_persists(module: Seq<char>, ids: Seq<Seq<char>>, j: int, apps: Seq<(Seq<char>, AppConfig)>)
    requires
        0 <= j <= ids.len(),
        module_app_error(module, ids.take(j), apps) is Some,
    ensures
        module_app_error(module, ids, apps) == module_app_error(module, ids.take(j), apps),
    decreases ids.len() - j,
{
    if j < ids.len() {
        assert(ids.take(j + 1).drop_last() =~= ids.take(j));
        lemma_module_error_persists(module, ids, j + 1, apps);
    } else {
        assert(ids.take(j) =~= ids);
    }
}

proof fn lemma_apps_error_persists(es: Seq<(Seq<char>, AppConfig)>, j: int, apps: Seq<(Seq<char>, AppConfig)>, strict: bool)
    requires
        0 <= j <= es.len(),
        apps_error(es.take(j), apps, strict) is Some,
    ensures
        apps_error(es, apps, strict) == apps_error(es.take(j), apps, strict),
    decreases es.len() - j,
{
    if j < es.len() {
        assert(es.take(j + 1).drop_last() =~= es.take(j));
        lemma_apps_error_persists(es, j + 1, apps, strict);
    } else {
        assert(es.take(j) =~= es);
    }
}

proof fn lemma_modules_error_persists(ms: Seq<(Seq<char>, ModuleDefinition)>, j: int, apps: Seq<(Seq<char>, AppConfig)>)
    requires
        0 <= j <= ms.len(),
        modules_error(ms.take(j), apps) is Some,
    ensures
        modules_error(ms, apps) == modules_error(ms.take(j), apps),
    decreases ms.len() - j,
{
    if j < ms.len() {
        assert(ms.take(j + 1).drop_last() =~= ms.take(j));
        lemma_modules_error_persists(ms, j + 1, apps);
    } else {
        assert(ms.take(j) =~= ms);
    }
}

/// Checks the configuration: every dependency names a configured app and,
/// when `strict`, every enabled app has a package, and every module lists
/// only existing, enabled apps with distinct packages. The first problem
/// found is returned.
pub fn validate_config(cfg: &Config, strict: bool) -> (r: Result<(), ConfigError>)
    ensures
        match r {
            Ok(()) => config_error(*cfg, strict) is None,
            Err(e) => config_error(*cfg, strict) == Some(error_model(e)),
        },
{
    let apps = &cfg.apps;
    let ghost es = apps@;
    let mut i: usize = 0;
    while i < apps.len()
        invariant
            i <= es.len(),
            es == cfg.apps@,
            apps@ == es,
            apps_error(es.take(i as int), es, strict) is None,
        decreases es.len() - i,
    {
        proof {
            assert(es.take(i + 1).drop_last() =~= es.take(i as int));
            assert(es.take(i + 1).last() == es[i as int]);
        }
        let id = apps.key_at(i);
        let app = apps.value_at(i);
        if let Some(e) = check_app(id, app, apps, strict) {
            proof {
                lemma_apps_error_persists(es, i + 1, es, strict);
            }
            return Err(e);
        }
        i += 1;
    }
    assert(es.take(es.len() as int) =~= es);
    if strict {
        let mods = &cfg.modules;
        let ghost ms = mods@;
        let mut m: usize = 0;
        while m < mods.len()
            invariant
                m <= ms.len(),
                ms == cfg.modules@,
                mods@ == ms,
                es == cfg.apps@,
                apps@ == es,
                apps_error(es, es, strict) is None,
                strict,
                modules_error(ms.take(m as int), es) is None,
            decreases ms.len() - m,
        {
            proof {
                assert(ms.take(m + 1).drop_last() =~= ms.take(m as int));
                assert(ms.take(m + 1).last() == ms[m as int]);
            }
            let name = mods.key_at(m);
            let def = mods.value_at(m);
            if let Some(e) = check_module(name, def, apps) {
                proof {
                    lemma_modules_error_persists(ms, m + 1, es);
                }
                return Err(e);
            }
            m += 1;
        }
        assert(ms.take(ms.len() as int) =~= ms);
    }
    Ok(())
}

// ---------------------------------------------------------------------
// Synchronising modules with the apps
// ---------------------------------------------------------------------

/// Selects configured apps whose `enabled` flag is `on`.
pub open spec fn app_enabled_is(apps: Seq<(Seq<char>, AppConfig)>, on: bool) -> spec_fn(Seq<char>) -> bool {
    |a: Seq<char>| assoc_get(apps, a) is Some && assoc_get(apps, a)->0.enabled == on
}

/// A module after synchronisation: its apps and disabled apps, listed once
/// each, split by whether the app is enabled; unknown apps are dropped.
pub open spec fn synced_module(m: ModuleDefinition, apps: Seq<(Seq<char>, AppConfig)>) -> (Seq<Seq<char>>, Seq<Seq<char>>) {
    let all = distinct_ids(str_views(m.apps@) + str_views(m.disabled_apps@));
    (all.filter(app_enabled_is(apps, true)), all.filter(app_enabled_is(apps, false)))
}

/// Whether an app gets a module of its own: enabled, not microG, and not
/// opted out by its module flags.
pub open spec fn wants_single(id: Seq<char>, app: AppConfig) -> bool {
    &&& app.enabled
    &&& !eq_ignore_case(id, "microg"@)
    &&& match app.module {
        Some(f) => f.single,
        None => true,
    }
}

/// The apps that get a module of their own, in key order.
pub open spec fn single_ids(es: Seq<(Seq<char>, AppConfig)>) -> Seq<Seq<char>>
    decreases es.len(),
{
    if es.len() == 0 {
        seq![]
    } else if wants_single(es.last().0, es.last().1) {
        single_ids(es.drop_last()).push(es.last().0)
    } else {
        single_ids(es.drop_last())
    }
}

/// The apps of `ids` whose `enabled` flag is `on`.
fn select_enabled(ids: &Vec<String>, apps: &StrMap<AppConfig>, on: bool) -> (r: Vec<String>)
    ensures
        str_views(r@) == str_views(ids@).filter(app_enabled_is(apps@, on)),
{
    let ghost pred = app_enabled_is(apps@, on);
    let ghost sv = str_views(ids@);
    let mut out: Vec<String> = Vec::new();
    let mut i: usize = 0;
    proof {
        reveal(Seq::filter);
        assert(sv.take(0) =~= Seq::<Seq<char>>::empty());
        assert(str_views(out@) =~= sv.take(0).filter(pred));
    }
    while i < ids.len()
        invariant
            i <= ids@.len(),
            sv == str_views(ids@),
            pred == app_enabled_is(apps@, on),
            str_views(out@) == sv.take(i as int).filter(pred),
        decreases ids.len() - i,
    {
        proof {
            assert(sv.take(i + 1) =~= sv.take(i as int).push(ids@[i as int]@));
            sv.take(i as int).lemma_filter_push(ids@[i as int]@, pred);
        }
        match apps.get(ids[i].as_str()) {
            Some(a) => {
                if a.enabled == on {
                    let ghost before = str_views(out@);
                    out.push(string_from_str(ids[i].as_str()));
                    assert(str_views(out@) =~= before.push(ids@[i as int]@));
                }
            },
            None => {},
        }
        i += 1;
    }
    assert(sv.take(ids@.len() as int) =~= sv);
    out
}

/// One module brought in line with the apps.
/// `b` keeps the name, module id and archive name of `a`.
pub open spec fn names_kept(a: ModuleDefinition, b: ModuleDefinition) -> bool {
    &&& opt_string_view(b.name) == opt_string_view(a.name)
    &&& opt_string_view(b.module_id) == opt_string_view(a.module_id)
    &&& opt_string_view(b.zip_name) == opt_string_view(a.zip_name)
}

fn sync_module(m: &ModuleDefinition, apps: &StrMap<AppConfig>) -> (r: ModuleDefinition)
    ensures
        (str_views(r.apps@), str_views(r.disabled_apps@)) == synced_module(*m, apps@),
        opt_string_view(r.name) == opt_string_view(m.name),
        opt_string_view(r.module_id) == opt_string_view(m.module_id),
        opt_string_view(r.zip_name) == opt_string_view(m.zip_name),
{
    let mut all: Vec<String> = Vec::new();
    assert(str_views(all@) =~= Seq::<Seq<char>>::empty());
    proof {
        lemma_distinct_from_empty(str_views(m.apps@));
    }
    push_distinct(&mut all, &m.apps);
    push_distinct(&mut all, &m.disabled_apps);
    proof {
        lemma_distinct_from_concat(str_views(m.apps@), str_views(m.disabled_apps@));
    }
    let active = select_enabled(&all, apps, true);
    let disabled = select_enabled(&all, apps, false);
    ModuleDefinition {
        apps: active,
        disabled_apps: disabled,
        name: clone_opt_string(&m.name),
        module_id: clone_opt_string(&m.module_id),
        zip_name: clone_opt_string(&m.zip_name),
    }
}

/// Brings `modules.yaml` in line with the apps: every module lists each of
/// its known apps once, enabled ones under `apps` and the others under
/// `disabled_apps`; `single_modules` lists, in key order, the enabled apps
/// other than microG that do not opt out of a module of their own.
pub fn sync_modules(file: ModulesFile, cfg: &Config) -> (r: ModulesFile)
    ensures
        r.modules@.len() == file.modules@.len(),
        forall|i: int| 0 <= i < r.modules@.len() ==> (#[trigger] r.modules@[i]).0 == file.modules@[i].0,
        forall|i: int| 0 <= i < r.modules@.len() ==> (str_views((#[trigger] r.modules@[i]).1.apps@), str_views(r.modules@[i].1.disabled_apps@))
            == synced_module(file.modules@[i].1, cfg.apps@),
        forall|i: int| 0 <= i < r.modules@.len() ==> names_kept(file.modules@[i].1, #[trigger] r.modules@[i].1),
        str_views(r.single_modules@) == single_ids(cfg.apps@),
{
    let mut file = file;
    let ghost m0 = file.modules@;
    let mut i: usize = 0;
    while i < file.modules.len()
        invariant
            i <= m0.len(),
            file.modules@.len() == m0.len(),
            forall|j: int| 0 <= j < m0.len() ==> (#[trigger] file.modules@[j]).0 == m0[j].0,
            forall|j: int| i <= j < m0.len() ==> (#[trigger] file.modules@[j]).1 == m0[j].1,
            forall|j: int| 0 <= j < i ==> (str_views((#[trigger] file.modules@[j]).1.apps@), str_views(file.modules@[j].1.disabled_apps@))
                == synced_module(m0[j].1, cfg.apps@),
            forall|j: int| 0 <= j < i ==> names_kept(m0[j].1, #[trigger] file.modules@[j].1),
        decreases m0.len() - i,
    {
        let synced = sync_module(file.modules.value_at(i), &cfg.apps);
        file.modules.set_value_at(i, synced);
        i += 1;
    }
    let apps = &cfg.apps;
    let ghost es = apps@;
    let mut singles: Vec<String> = Vec::new();
    let mut k: usize = 0;
    while k < apps.len()
        invariant
            k <= es.len(),
            es == apps@,
            apps@ == cfg.apps@,
            str_views(singles@) == single_ids(es.take(k as int)),
        decreases es.len() - k,
    {
        proof {
            assert(es.take(k + 1).drop_last() =~= es.take(k as int));
            assert(es.take(k + 1).last() == es[k as int]);
        }
        let id = apps.key_at(k);
        let app = apps.value_at(k);
        let single = match &app.module {
            Some(f) => f.single,
            None => true,
        };
        if app.enabled && !str_eq_ignore_case(id.as_str(), "microg") && single {
            let ghost before = str_views(singles@);
            singles.push(string_from_str(id.as_str()));
            assert(str_views(singles@) =~= before.push(id@));
        }
        k += 1;
    }
    assert(es.take(es.len() as int) =~= es);
    file.single_modules = singles;
    file
}

/// Synchronises the loaded `modules.yaml` with the apps and takes its modules
/// into the configuration; the list of single-app modules of the synchronised
/// file is returned beside it.
pub fn sync_and_reload_modules(loaded: ModulesFile, cfg: Config) -> (r: (Config, Vec<String>))
    ensures
        r.0.modules@.len() == loaded.modules@.len(),
        forall|i: int| 0 <= i < r.0.modules@.len() ==> (#[trigger] r.0.modules@[i]).0 == loaded.modules@[i].0,
        forall|i: int| 0 <= i < r.0.modules@.len() ==> (str_views((#[trigger] r.0.modules@[i]).1.apps@), str_views(r.0.modules@[i].1.disabled_apps@))
            == synced_module(loaded.modules@[i].1, cfg.apps@),
        forall|i: int| 0 <= i < r.0.modules@.len() ==> names_kept(loaded.modules@[i].1, #[trigger] r.0.modules@[i].1),
        str_views(r.1@) == single_ids(cfg.apps@),
        r.0.apps@ == cfg.apps@,
        r.0.cli_repo == cfg.cli_repo,
        r.0.cli_pattern == cfg.cli_pattern,
        r.0.patch_sources@ == cfg.patch_sources@,
        r.0.apk_sources@ == cfg.apk_sources@,
        r.0.build == cfg.build,
        r.0.module_meta == cfg.module_meta,
{
    let synced = sync_modules(loaded, &cfg);
    let mut cfg = cfg;
    cfg.modules = synced.modules;
    (cfg, synced.single_modules)
}

} // verus!

verus! {

proof fn lemma_apps_error_none(es: Seq<(Seq<char>, AppConfig)>, apps: Seq<(Seq<char>, AppConfig)>, strict: bool)
    requires
        apps_error(es, apps, strict) is None,
    ensures
        forall|i: int| 0 <= i < es.len() ==> (#[trigger] app_error(es[i].0, es[i].1, apps, strict)) is None,
    decreases es.len(),
{
    if es.len() > 0 {
        lemma_apps_error_none(es.drop_last(), apps, strict);
        assert forall|i: int| 0 <= i < es.len() implies (#[trigger] app_error(es[i].0, es[i].1, apps, strict)) is None by {
            if i < es.len() - 1 {
                assert(es.drop_last()[i] == es[i]);
            }
        }
    }
}

proof fn lemma_first_unknown_none(names: Seq<Seq<char>>, apps: Seq<(Seq<char>, AppConfig)>)
    requires
        first_unknown(names, apps) is None,
    ensures
        forall|j: int| 0 <= j < names.len() ==> assoc_get(apps, #[trigger] names[j]) is Some,
    decreases names.len(),
{
    if names.len() > 0 {
        lemma_first_unknown_none(names.drop_first(), apps);
        assert forall|j: int| 0 <= j < names.len() implies assoc_get(apps, #[trigger] names[j]) is Some by {
            if j > 0 {
                assert(names.drop_first()[j - 1] == names[j]);
            }
        }
    }
}

proof fn lemma_modules_error_none(ms: Seq<(Seq<char>, ModuleDefinition)>, apps: Seq<(Seq<char>, AppConfig)>)
    requires
        modules_error(ms, apps) is None,
    ensures
        forall|m: int| 0 <= m < ms.len() ==> (#[trigger] module_error(ms[m].0, str_views(ms[m].1.apps@), apps)) is None,
    decreases ms.len(),
{
    if ms.len() > 0 {
        lemma_modules_error_none(ms.drop_last(), apps);
        assert forall|m: int| 0 <= m < ms.len() implies (#[trigger] module_error(ms[m].0, str_views(ms[m].1.apps@), apps)) is None by {
            if m < ms.len() - 1 {
                assert(ms.drop_last()[m] == ms[m]);
            }
        }
    }
}

proof fn lemma_module_apps_none(module: Seq<char>, ids: Seq<Seq<char>>, apps: Seq<(Seq<char>, AppConfig)>)
    requires
        module_app_error(module, ids, apps) is None,
    ensures
        forall|k: int| 0 <= k < ids.len() ==> ((#[trigger] assoc_get(apps, ids[k])) matches Some(a) && a.enabled),
    decreases ids.len(),
{
    if ids.len() > 0 {
        lemma_module_apps_none(module, ids.drop_last(), apps);
        assert forall|k: int| 0 <= k < ids.len() implies ((#[trigger] assoc_get(apps, ids[k])) matches Some(a) && a.enabled) by {
            if k < ids.len() - 1 {
                assert(ids.drop_last()[k] == ids[k]);
            }
        }
    }
}

/// A configuration that passes the strict check is consistent: every
/// dependency names a configured app, every enabled app has a package, and
/// every module lists configured, enabled apps, no two of them (nor one
/// listed twice) with the same package.
pub proof fn lemma_strict_config_consistent(cfg: Config)
    requires
        config_error(cfg, true) is None,
    ensures
        forall|i: int, j: int|
            0 <= i < cfg.apps@.len() && 0 <= j < cfg.apps@[i].1.dependencies.names().len() ==> cfg.apps.spec_get(
                #[trigger] cfg.apps@[i].1.dependencies.names()[j],
            ) is Some,
        forall|i: int|
            0 <= i < cfg.apps@.len() && (#[trigger] cfg.apps@[i]).1.enabled ==> cfg.apps@[i].1.package@.len() > 0,
        forall|m: int, k: int|
            0 <= m < cfg.modules@.len() && 0 <= k < cfg.modules@[m].1.apps@.len() ==> (cfg.apps.spec_get(
                #[trigger] cfg.modules@[m].1.apps@[k]@,
            ) matches Some(a) && a.enabled),
        forall|m: int, j: int, k: int|
            0 <= m < cfg.modules@.len() && 0 <= j < cfg.modules@[m].1.apps@.len() && 0 <= k
                < cfg.modules@[m].1.apps@.len() && j != k ==> cfg.apps.spec_get(
                #[trigger] cfg.modules@[m].1.apps@[j]@,
            )->0.package@ != cfg.apps.spec_get(#[trigger] cfg.modules@[m].1.apps@[k]@)->0.package@,
{
    let es = cfg.apps@;
    lemma_apps_error_none(es, es, true);
    assert forall|i: int, j: int|
        0 <= i < es.len() && 0 <= j < es[i].1.dependencies.names().len() implies cfg.apps.spec_get(
        #[trigger] es[i].1.dependencies.names()[j],
    ) is Some by {
        assert(app_error(es[i].0, es[i].1, es, true) is None);
        lemma_first_unknown_none(es[i].1.dependencies.names(), es);
    }
    assert forall|i: int| 0 <= i < es.len() && (#[trigger] es[i]).1.enabled implies es[i].1.package@.len() > 0 by {
        assert(app_error(es[i].0, es[i].1, es, true) is None);
        lemma_first_unknown_none(es[i].1.dependencies.names(), es);
        if first_unknown(es[i].1.dependencies.names(), es) is Some {
        }
    }
    let ms = cfg.modules@;
    lemma_modules_error_none(ms, es);
    assert forall|m: int, k: int|
        0 <= m < ms.len() && 0 <= k < ms[m].1.apps@.len() implies (cfg.apps.spec_get(#[trigger] ms[m].1.apps@[k]@) matches Some(
        a,
    ) && a.enabled) by {
        let ids = str_views(ms[m].1.apps@);
        assert(module_error(ms[m].0, ids, es) is None);
        lemma_module_apps_none(ms[m].0, ids, es);
        assert(ids[k] == ms[m].1.apps@[k]@);
    }
    assert forall|m: int, j: int, k: int|
        0 <= m < ms.len() && 0 <= j < ms[m].1.apps@.len() && 0 <= k < ms[m].1.apps@.len() && j != k implies cfg.apps.spec_get(
        #[trigger] ms[m].1.apps@[j]@,
    )->0.package@ != cfg.apps.spec_get(#[trigger] ms[m].1.apps@[k]@)->0.package@ by {
        let ids = str_views(ms[m].1.apps@);
        assert(module_error(ms[m].0, ids, es) is None);
        lemma_module_apps_none(ms[m].0, ids, es);
        assert(collision(ms[m].0, ids, es) is None);
        assert(ids[j] == ms[m].1.apps@[j]@);
        assert(ids[k] == ms[m].1.apps@[k]@);
        if package_of(es, ids[k]) == package_of(es, ids[j]) {
            assert(shares_package(ids, es, j));
        }
    }
}

} // verus!
