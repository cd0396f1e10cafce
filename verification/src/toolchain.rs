//! What a Rust target needs from the environment: the toolchain it pins,
//! the Rust version its manifest declares, the runtime that follows from
//! them, and the tools its enabled signals install.
use crate::host::{sort_distinct, sorted_distinct, Entry};
use crate::text::{string_views, trim};
use crate::versions::{spec_version_kind, version_kind, VersionKind};
use crate::environment_plan::PlatformText;
use crate::vocabulary::SignalKind;
use toml::Value;
use toml::Value::{Array, Boolean, Datetime, Float, Integer};
use vstd::prelude::*;

verus! {

broadcast use vstd::string::group_string_axioms;

/// What a TOML document holds at a key path, as far as the Rust adapter
/// reads it.
pub enum TomlField {
    /// The document does not parse; the parser's message.
    Unparsable(String),
    /// No value at the key path.
    Missing,
    Text(String),
    Flag(bool),
    /// An array: the text of each item that is a string.
    List(Vec<Option<String>>),
    /// A table: its keys.
    Table(Vec<String>),
    /// A number, a date or a time.
    Other,
}

/// What `toml::from_str::<toml::Value>` makes of `content`, followed down
/// `keys` with `toml::Value::get`.
pub uninterp spec fn toml_field_at(content: Seq<char>, keys: Seq<Seq<char>>) -> TomlField;

pub open spec fn key_views(keys: Seq<&str>) -> Seq<Seq<char>> {
    keys.map_values(|k: &str| k@)
}

/// Parses `content` with `toml::from_str::<toml::Value>`, follows `keys`
/// with `toml::Value::get` and reports the value found, one variant of
/// `toml::Value` for one of `TomlField`; integers, floats and dates read
/// alike, as `Other`, since no caller looks inside them. Trusted: the
/// result is the named function of the text and the keys.
#[verifier::external_body]
pub(crate) fn toml_field(content: &str, keys: &Vec<&str>) -> (r: TomlField)
    ensures
        r == toml_field_at(content@, key_views(keys@)),
{
    let mut value = &match toml::from_str::<Value>(content) { Ok(v) => v, Err(e) => return TomlField::Unparsable(e.to_string()) };
    for key in keys { value = match value.get(*key) { Some(next) => next, None => return TomlField::Missing }; }
    match value {
        Value::String(text) => TomlField::Text(text.clone()),
        Boolean(flag) => TomlField::Flag(*flag),
        Array(items) => TomlField::List(items.iter().map(|i| i.as_str().map(String::from)).collect()),
        Value::Table(table) => TomlField::Table(table.keys().cloned().collect()),
        Integer(_) | Float(_) | Datetime(_) => TomlField::Other,
    }
}

/// How sure the reading of a requirement is.
#[derive(Clone, Copy, Debug, PartialEq, Eq, Structural)]
pub enum Confidence {
    Exact,
    Declared,
    Assumed,
}

/// Where a requirement comes from.
pub struct RequirementSource {
    pub kind: String,
    pub path: String,
    pub confidence: Confidence,
}

pub open spec fn source_is(s: RequirementSource, kind: Seq<char>, path: Seq<char>, confidence: Confidence) -> bool {
    s.kind@ == kind && s.path@ == path && s.confidence == confidence
}

fn source(kind: &str, path: &str, confidence: Confidence) -> (r: RequirementSource)
    ensures
        source_is(r, kind@, path@, confidence),
{
    RequirementSource { kind: String::from_str(kind), path: String::from_str(path), confidence }
}

/// A toolchain a repository pins.
pub struct Toolchain {
    pub channel: String,
    /// Distinct, in code-point order.
    pub components: Vec<String>,
    /// Distinct, in code-point order.
    pub targets: Vec<String>,
    pub source: RequirementSource,
}

fn concat(a: &str, b: &str) -> (r: String)
    ensures
        r@ == a@ + b@,
{
    let mut s = String::from_str(a);
    s.append(b);
    s
}

fn concat3(a: &str, b: &str, c: &str) -> (r: String)
    ensures
        r@ == a@ + b@ + c@,
{
    let mut s = concat(a, b);
    s.append(c);
    s
}

/// The selector of a legacy `rust-toolchain` file: its trimmed text, which
/// must be one non-empty line.
pub open spec fn spec_legacy_selector(content: Seq<char>) -> Option<Seq<char>> {
    let t = trim(content);
    if t.len() == 0 || t.contains('\n') {
        None
    } else {
        Some(t)
    }
}

/// Reads a legacy `rust-toolchain` file (`file` as messages name it,
/// `relative` as the requirement records it).
pub fn legacy_toolchain(content: &str, file: &str, relative: &str) -> (r: Result<Toolchain, String>)
    ensures
        match spec_legacy_selector(content@) {
            Some(channel) => r matches Ok(t) && t.channel@ == channel && t.components@.len() == 0
                && t.targets@.len() == 0 && source_is(t.source, "rust_toolchain_legacy"@, relative@, Confidence::Declared),
            None => r matches Err(e) && e@ == file@ + " must contain one non-empty toolchain selector"@,
        },
{
    let v = crate::text::chars_of(content);
    let (lo, hi) = crate::text::trim_bounds(&v);
    let t = crate::text::sub_vec(&v, lo, hi);
    if t.len() == 0 || crate::text::chars_contain(&t, '\n') {
        return Err(concat(file, " must contain one non-empty toolchain selector"));
    }
    Ok(Toolchain {
        channel: crate::text::string_from_chars(&t),
        components: Vec::new(),
        targets: Vec::new(),
        source: source("rust_toolchain_legacy", relative, Confidence::Declared),
    })
}


pub open spec fn entries_of(items: Seq<Option<String>>) -> Seq<Entry> {
    items.map_values(|o: Option<String>| Entry { text: o->0 })
}

pub open spec fn all_texts(items: Seq<Option<String>>) -> bool {
    forall|i: int| 0 <= i < items.len() ==> #[trigger] items[i] is Some
}

/// The `toolchain.<name>` array of strings, distinct and sorted; an absent
/// array is empty.
pub open spec fn spec_toolchain_strings(field: TomlField, file: Seq<char>, name: Seq<char>) -> Result<Seq<Seq<char>>, Seq<char>> {
    match field {
        TomlField::Missing => Ok(seq![]),
        TomlField::List(items) => if all_texts(items@) {
            Ok(sorted_distinct(entries_of(items@)))
        } else {
            Err(file + " toolchain."@ + name + " must contain only strings"@)
        },
        _ => Err(file + " toolchain."@ + name + " must be an array of strings"@),
    }
}

/// A `rust-toolchain.toml` file: its `[toolchain]` channel, components and
/// targets, or the message of the first thing wrong with it.
pub open spec fn spec_toolchain_toml(content: Seq<char>, file: Seq<char>) -> Result<(Seq<char>, Seq<Seq<char>>, Seq<Seq<char>>), Seq<char>> {
    match toml_field_at(content, seq!["toolchain"@]) {
        TomlField::Unparsable(e) => Err("failed to parse "@ + file + ": "@ + e@),
        TomlField::Missing => Err(file + " must contain [toolchain]"@),
        _ => match toml_field_at(content, seq!["toolchain"@, "channel"@]) {
            TomlField::Text(channel) => match spec_toolchain_strings(
                toml_field_at(content, seq!["toolchain"@, "components"@]),
                file,
                "components"@,
            ) {
                Err(e) => Err(e),
                Ok(components) => match spec_toolchain_strings(
                    toml_field_at(content, seq!["toolchain"@, "targets"@]),
                    file,
                    "targets"@,
                ) {
                    Err(e) => Err(e),
                    Ok(targets) => Ok((channel@, components, targets)),
                },
            },
            _ => Err(file + " toolchain.channel must be a string"@),
        },
    }
}

fn toolchain_strings(content: &str, name: &str, file: &str) -> (r: Result<Vec<String>, String>)
    ensures
        match spec_toolchain_strings(toml_field_at(content@, seq!["toolchain"@, name@]), file@, name@) {
            Ok(texts) => r matches Ok(v) && string_views(v@) == texts,
            Err(m) => r matches Err(e) && e@ == m,
        },
{
    let keys = vec!["toolchain", name];
    assert(key_views(keys@) =~= seq!["toolchain"@, name@]);
    match toml_field(content, &keys) {
        TomlField::Missing => {
            let empty: Vec<String> = Vec::new();
            assert(string_views(empty@) =~= seq![]);
            Ok(empty)
        },
        TomlField::List(items) => {
            let mut entries: Vec<Entry> = Vec::new();
            let mut i: usize = 0;
            while i < items.len()
                invariant
                    toml_field_at(content@, seq!["toolchain"@, name@]) == TomlField::List(items),
                    i <= items@.len(),
                    entries@ == entries_of(items@.take(i as int)),
                    forall|k: int| 0 <= k < i ==> #[trigger] items@[k] is Some,
                decreases items@.len() - i,
            {
                match &items[i] {
                    Some(text) => {
                        entries.push(Entry { text: text.clone() });
                        assert(entries_of(items@.take(i + 1)) =~= entries_of(items@.take(i as int)).push(
                            Entry { text: items@[i as int]->0 },
                        ));
                    },
                    None => {
                        assert(items@[i as int] is None);
                        assert(!all_texts(items@));
                        let mut m = concat3(file, " toolchain.", name);
                        m.append(" must contain only strings");
                        return Err(m);
                    },
                }
                i = i + 1;
            }
            assert(items@.take(items@.len() as int) =~= items@);
            Ok(sort_distinct(entries))
        },
        _ => {
            let mut m = concat3(file, " toolchain.", name);
            m.append(" must be an array of strings");
            Err(m)
        },
    }
}

/// Reads a `rust-toolchain.toml` file (`file` as messages name it,
/// `relative` as the requirement records it).
pub fn toolchain_from_toml(content: &str, file: &str, relative: &str) -> (r: Result<Toolchain, String>)
    ensures
        match spec_toolchain_toml(content@, file@) {
            Ok((channel, components, targets)) => r matches Ok(t) && t.channel@ == channel
                && string_views(t.components@) == components && string_views(t.targets@) == targets
                && source_is(t.source, "rust_toolchain_toml"@, relative@, Confidence::Declared),
            Err(m) => r matches Err(e) && e@ == m,
        },
{
    let table_keys = vec!["toolchain"];
    assert(key_views(table_keys@) =~= seq!["toolchain"@]);
    match toml_field(content, &table_keys) {
        TomlField::Unparsable(e) => {
            let mut m = concat3("failed to parse ", file, ": ");
            m.append(e.as_str());
            return Err(m);
        },
        TomlField::Missing => {
            return Err(concat(file, " must contain [toolchain]"));
        },
        _ => {},
    }
    let channel_keys = vec!["toolchain", "channel"];
    assert(key_views(channel_keys@) =~= seq!["toolchain"@, "channel"@]);
    let channel = match toml_field(content, &channel_keys) {
        TomlField::Text(channel) => channel,
        _ => {
            return Err(concat(file, " toolchain.channel must be a string"));
        },
    };
    let components = toolchain_strings(content, "components", file)?;
    let targets = toolchain_strings(content, "targets", file)?;
    Ok(Toolchain {
        channel,
        components,
        targets,
        source: source("rust_toolchain_toml", relative, Confidence::Declared),
    })
}


fn copy_source(s: &RequirementSource) -> (r: RequirementSource)
    ensures
        r == *s,
{
    RequirementSource { kind: s.kind.clone(), path: s.path.clone(), confidence: s.confidence }
}

/// Two toolchain files that name different channels.
pub struct ToolchainConflict {
    pub code: String,
    pub message: String,
    pub sources: Vec<RequirementSource>,
}

/// When both a `rust-toolchain.toml` and a legacy `rust-toolchain` pin a
/// toolchain and their channels differ, the conflict between them, naming
/// the two files; otherwise nothing. Components and targets do not take
/// part.
pub fn toolchain_conflict(toml: &Option<Toolchain>, legacy: &Option<Toolchain>) -> (r: Option<ToolchainConflict>)
    ensures
        (toml is Some && legacy is Some && toml->0.channel@ != legacy->0.channel@) ==> (r matches Some(c)
            && c.code@ == "rust_toolchain_source_conflict"@
            && c.message@ == "rust-toolchain.toml and rust-toolchain disagree; remove or align the legacy selector"@
            && c.sources@ == seq![toml->0.source, legacy->0.source]),
        !(toml is Some && legacy is Some && toml->0.channel@ != legacy->0.channel@) ==> r is None,
{
    match (toml, legacy) {
        (Some(t), Some(l)) => {
            if crate::text::str_eq(t.channel.as_str(), l.channel.as_str()) {
                None
            } else {
                let sources = vec![copy_source(&t.source), copy_source(&l.source)];
                Some(ToolchainConflict {
                    code: String::from_str("rust_toolchain_source_conflict"),
                    message: String::from_str(
                        "rust-toolchain.toml and rust-toolchain disagree; remove or align the legacy selector",
                    ),
                    sources,
                })
            }
        },
        _ => None,
    }
}

/// The version a runtime or tool requirement asks for.
pub enum VersionRequirement {
    Exact(String),
    Minimum(String),
    Selector(String),
    /// Nothing pins it; why.
    Unresolved(String),
}

/// A version requirement of the given kind and text.
pub open spec fn version_is(v: VersionRequirement, kind: VersionClass, text: Seq<char>) -> bool {
    match v {
        VersionRequirement::Exact(t) => kind == VersionClass::Exact && t@ == text,
        VersionRequirement::Minimum(t) => kind == VersionClass::Minimum && t@ == text,
        VersionRequirement::Selector(t) => kind == VersionClass::Selector && t@ == text,
        VersionRequirement::Unresolved(t) => kind == VersionClass::Unresolved && t@ == text,
    }
}

#[derive(Clone, Copy, Debug, PartialEq, Eq, Structural)]
pub enum VersionClass {
    Exact,
    Minimum,
    Selector,
    Unresolved,
}

/// A toolchain channel asks for exactly itself when it names one exact
/// toolchain, and is a selector otherwise.
pub open spec fn channel_class(channel: Seq<char>) -> VersionClass {
    match spec_version_kind(channel) {
        VersionKind::Exact => VersionClass::Exact,
        VersionKind::Selector => VersionClass::Selector,
    }
}

pub fn channel_requirement(channel: &str) -> (r: VersionRequirement)
    ensures
        version_is(r, channel_class(channel@), channel@),
        crate::versions::spec_is_exact_rust_version(channel@) ==> (r matches VersionRequirement::Exact(t) && t@
            == channel@),
{
    match version_kind(channel) {
        VersionKind::Exact => VersionRequirement::Exact(String::from_str(channel)),
        VersionKind::Selector => VersionRequirement::Selector(String::from_str(channel)),
    }
}

/// The Rust version a manifest declares, and where.
pub struct RustVersion {
    pub version: String,
    pub source: RequirementSource,
}

/// The Rust runtime a target needs.
pub struct RuntimeRequirement {
    pub version: VersionRequirement,
    pub components: Vec<String>,
    pub targets: Vec<String>,
    pub source: RequirementSource,
}

/// Something the plan could not settle and the user can act on.
pub struct EnvironmentWarning {
    pub code: String,
    pub message: String,
}

pub open spec fn unresolved_runtime_message() -> Seq<char> {
    "No Rust toolchain or Cargo rust-version was found; add rust-toolchain.toml or package.rust-version."@
}

/// The runtime a target needs: a pinned toolchain decides it, with its
/// components and targets; else the manifest's Rust version is a minimum;
/// else it is unresolved, sourced to the manifest, with a warning that
/// says what to add.
pub fn runtime_requirement(toolchain: Option<Toolchain>, rust_version: Option<RustVersion>, manifest_path: &str) -> (r: (
    RuntimeRequirement,
    Vec<EnvironmentWarning>,
))
    ensures
        toolchain matches Some(t) ==> version_is(r.0.version, channel_class(t.channel@), t.channel@)
            && r.0.components == t.components && r.0.targets == t.targets && r.0.source == t.source
            && r.1@.len() == 0,
        (toolchain is None && rust_version is Some) ==> version_is(
            r.0.version,
            VersionClass::Minimum,
            rust_version->0.version@,
        ) && r.0.components@.len() == 0 && r.0.targets@.len() == 0 && r.0.source == rust_version->0.source
            && r.1@.len() == 0,
        (toolchain is None && rust_version is None) ==> version_is(
            r.0.version,
            VersionClass::Unresolved,
            "no Rust toolchain or Cargo rust-version"@,
        ) && r.0.components@.len() == 0 && r.0.targets@.len() == 0 && source_is(
            r.0.source,
            "unresolved"@,
            manifest_path@,
            Confidence::Assumed,
        ) && r.1@.len() == 1 && r.1@[0].code@ == "rust_runtime_unresolved"@ && r.1@[0].message@
            == unresolved_runtime_message(),
{
    match toolchain {
        Some(t) => {
            let version = channel_requirement(t.channel.as_str());
            (RuntimeRequirement { version, components: t.components, targets: t.targets, source: t.source }, Vec::new())
        },
        None => match rust_version {
            Some(rv) => (
                RuntimeRequirement {
                    version: VersionRequirement::Minimum(rv.version),
                    components: Vec::new(),
                    targets: Vec::new(),
                    source: rv.source,
                },
                Vec::new(),
            ),
            None => {
                let warning = EnvironmentWarning {
                    code: String::from_str("rust_runtime_unresolved"),
                    message: String::from_str(
                        "No Rust toolchain or Cargo rust-version was found; add rust-toolchain.toml or package.rust-version.",
                    ),
                };
                (
                    RuntimeRequirement {
                        version: VersionRequirement::Unresolved(String::from_str("no Rust toolchain or Cargo rust-version")),
                        components: Vec::new(),
                        targets: Vec::new(),
                        source: source("unresolved", manifest_path, Confidence::Assumed),
                    },
                    vec![warning],
                )
            },
        },
    }
}

/// The component that coverage instruments code with.
pub open spec fn coverage_component() -> Seq<char> {
    "llvm-tools-preview"@
}

/// When coverage is requested and the runtime lacks the coverage
/// component, appends it; nothing else changes.
pub fn add_coverage_component(signals: &Vec<SignalKind>, runtime: &mut RuntimeRequirement)
    ensures
        final(runtime).version == old(runtime).version,
        final(runtime).targets == old(runtime).targets,
        final(runtime).source == old(runtime).source,
        string_views(final(runtime).components@) == if signals@.contains(SignalKind::Coverage)
            && !string_views(old(runtime).components@).contains(coverage_component()) {
            string_views(old(runtime).components@).push(coverage_component())
        } else {
            string_views(old(runtime).components@)
        },
{
    let mut wanted = false;
    let mut i: usize = 0;
    while i < signals.len()
        invariant
            i <= signals@.len(),
            wanted == signals@.take(i as int).contains(SignalKind::Coverage),
        decreases signals@.len() - i,
    {
        if signals[i] == SignalKind::Coverage {
            wanted = true;
        }
        proof {
            assert(signals@.take(i + 1) =~= signals@.take(i as int).push(signals@[i as int]));
            vstd::seq_lib::lemma_seq_contains_after_push(
                signals@.take(i as int),
                signals@[i as int],
                SignalKind::Coverage,
            );
        }
        i = i + 1;
    }
    assert(signals@.take(signals@.len() as int) =~= signals@);
    if !wanted {
        return;
    }
    let mut present = false;
    let mut k: usize = 0;
    while k < runtime.components.len()
        invariant
            k <= runtime.components@.len(),
            present == string_views(runtime.components@.take(k as int)).contains(coverage_component()),
        decreases runtime.components@.len() - k,
    {
        if crate::text::str_eq(runtime.components[k].as_str(), "llvm-tools-preview") {
            present = true;
        }
        proof {
            assert(string_views(runtime.components@.take(k + 1)) =~= string_views(
                runtime.components@.take(k as int),
            ).push(runtime.components@[k as int]@));
            vstd::seq_lib::lemma_seq_contains_after_push(
                string_views(runtime.components@.take(k as int)),
                runtime.components@[k as int]@,
                coverage_component(),
            );
        }
        k = k + 1;
    }
    assert(runtime.components@.take(runtime.components@.len() as int) =~= runtime.components@);
    if !present {
        runtime.components.push(String::from_str("llvm-tools-preview"));
        assert(string_views(runtime.components@) =~= string_views(old(runtime).components@).push(
            coverage_component(),
        ));
    }
}


/// Whether `signals` asks for `kind`.
fn requests(signals: &Vec<SignalKind>, kind: SignalKind) -> (r: bool)
    ensures
        r == signals@.contains(kind),
{
    let mut i: usize = 0;
    while i < signals.len()
        invariant
            i <= signals@.len(),
            forall|j: int| 0 <= j < i ==> signals@[j] != kind,
        decreases signals@.len() - i,
    {
        if signals[i] == kind {
            assert(signals@[i as int] == kind);
            return true;
        }
        i = i + 1;
    }
    false
}

fn copy_platforms(platforms: &Vec<PlatformText>) -> (r: Vec<PlatformText>)
    ensures
        r@ == platforms@,
{
    let mut out: Vec<PlatformText> = Vec::new();
    let mut i: usize = 0;
    while i < platforms.len()
        invariant
            i <= platforms@.len(),
            out@ == platforms@.take(i as int),
        decreases platforms@.len() - i,
    {
        let p = &platforms[i];
        out.push(PlatformText { os: p.os.clone(), architecture: p.architecture.clone(), libc: p.libc.clone() });
        assert(out@ =~= platforms@.take(i + 1));
        i = i + 1;
    }
    assert(platforms@.take(platforms@.len() as int) =~= platforms@);
    out
}

/// A tool that a signal of the target installs. Every tool of the Rust
/// catalog is installed with `cargo install` into an isolated location,
/// needs the network to provision and leaves the checkout alone.
pub struct SignalTool {
    pub tool: String,
    pub version: VersionRequirement,
    pub provider: String,
    pub signals: Vec<SignalKind>,
    pub supported_platforms: Vec<PlatformText>,
    pub source: RequirementSource,
}

/// The version of `cargo-llvm-cov` the catalog pins.
pub const CARGO_LLVM_COV_VERSION: &'static str = "0.8.5";

pub open spec fn tool_names(tools: Seq<SignalTool>) -> Seq<Seq<char>> {
    tools.map_values(|t: SignalTool| t.tool@)
}

/// The catalog tools the requested signals need, in catalog order:
/// coverage needs `cargo-llvm-cov`, complexity `rust-code-analysis-cli`.
pub open spec fn spec_catalog_tools(signals: Seq<SignalKind>) -> Seq<Seq<char>> {
    (if signals.contains(SignalKind::Coverage) { seq!["cargo-llvm-cov"@] } else { seq![] }) + (if signals.contains(
        SignalKind::Complexity,
    ) {
        seq!["rust-code-analysis-cli"@]
    } else {
        seq![]
    })
}

pub open spec fn catalog_tool_ok(t: SignalTool, manifest_path: Seq<char>, platforms: Seq<PlatformText>) -> bool {
    &&& t.provider@ == "cargo-install"@
    &&& source_is(t.source, "rust_adapter_catalog"@, manifest_path, Confidence::Declared)
    &&& t.supported_platforms@ == platforms
    &&& t.tool@ == "cargo-llvm-cov"@ ==> version_is(t.version, VersionClass::Exact, "0.8.5"@) && t.signals@
        == seq![SignalKind::Coverage]
    &&& t.tool@ == "rust-code-analysis-cli"@ ==> version_is(
        t.version,
        VersionClass::Unresolved,
        "catalog does not pin rust-code-analysis-cli"@,
    ) && t.signals@ == seq![SignalKind::Complexity]
}

fn catalog_tool(tool: &str, version: VersionRequirement, kind: SignalKind, manifest_path: &str, platforms: &Vec<PlatformText>) -> (r: SignalTool)
    ensures
        r.tool@ == tool@,
        r.version == version,
        r.provider@ == "cargo-install"@,
        r.signals@ == seq![kind],
        r.supported_platforms@ == platforms@,
        source_is(r.source, "rust_adapter_catalog"@, manifest_path@, Confidence::Declared),
{
    SignalTool {
        tool: String::from_str(tool),
        version,
        provider: String::from_str("cargo-install"),
        signals: vec![kind],
        supported_platforms: copy_platforms(platforms),
        source: source("rust_adapter_catalog", manifest_path, Confidence::Declared),
    }
}

proof fn lemma_catalog_names_differ()
    ensures
        "cargo-llvm-cov"@ != "rust-code-analysis-cli"@,
{
    reveal_strlit("cargo-llvm-cov");
    reveal_strlit("rust-code-analysis-cli");
    assert("cargo-llvm-cov"@.len() != "rust-code-analysis-cli"@.len());
}

/// The catalog tools for the requested signals, each offered on the
/// requested platforms and sourced to the target's manifest.
pub fn signal_tools(signals: &Vec<SignalKind>, manifest_path: &str, platforms: &Vec<PlatformText>) -> (r: Vec<SignalTool>)
    ensures
        tool_names(r@) == spec_catalog_tools(signals@),
        forall|i: int| 0 <= i < r@.len() ==> catalog_tool_ok(#[trigger] r@[i], manifest_path@, platforms@),
{
    proof {
        lemma_catalog_names_differ();
    }
    let mut tools: Vec<SignalTool> = Vec::new();
    if requests(signals, SignalKind::Coverage) {
        let version = VersionRequirement::Exact(String::from_str(CARGO_LLVM_COV_VERSION));
        tools.push(catalog_tool("cargo-llvm-cov", version, SignalKind::Coverage, manifest_path, platforms));
        assert(catalog_tool_ok(tools@[0], manifest_path@, platforms@));
    }
    if requests(signals, SignalKind::Complexity) {
        let version = VersionRequirement::Unresolved(String::from_str("catalog does not pin rust-code-analysis-cli"));
        tools.push(catalog_tool("rust-code-analysis-cli", version, SignalKind::Complexity, manifest_path, platforms));
        assert(catalog_tool_ok(tools@[tools@.len() - 1], manifest_path@, platforms@));
    }
    assert forall|i: int| 0 <= i < tools@.len() implies catalog_tool_ok(#[trigger] tools@[i], manifest_path@, platforms@) by {
        if i == 0 {
        }
    }
    assert(tool_names(tools@) =~= spec_catalog_tools(signals@));
    tools
}


/// A manifest's text, the path messages name it by, and its
/// repository-relative path.
pub struct ManifestText {
    pub content: String,
    pub file: String,
    pub path: String,
}

pub open spec fn parse_message(file: Seq<char>, error: Seq<char>) -> Seq<char> {
    "failed to parse "@ + file + ": "@ + error
}

/// The error of a manifest that does not parse, if it does not.
pub open spec fn spec_parse_failure(m: ManifestText) -> Option<Seq<char>> {
    match toml_field_at(m.content@, seq![]) {
        TomlField::Unparsable(e) => Some(parse_message(m.file@, e@)),
        _ => None,
    }
}

pub(crate) fn parse_failure(m: &ManifestText) -> (r: Option<String>)
    ensures
        match spec_parse_failure(*m) {
            Some(message) => r matches Some(e) && e@ == message,
            None => r is None,
        },
{
    let keys: Vec<&str> = Vec::new();
    assert(key_views(keys@) =~= seq![]);
    match toml_field(m.content.as_str(), &keys) {
        TomlField::Unparsable(e) => {
            let mut message = concat3("failed to parse ", m.file.as_str(), ": ");
            message.append(e.as_str());
            Some(message)
        },
        _ => None,
    }
}

pub open spec fn rust_version_shape_message() -> Seq<char> {
    "Cargo package rust-version must be a string or { workspace = true }"@
}

pub open spec fn inherited_rust_version_message() -> Seq<char> {
    "workspace-inherited Cargo rust-version requires a string at workspace.package.rust-version"@
}

/// The Rust version a package declares, as (version, source kind, source
/// path): a string in `package.rust-version`, or `{ workspace = true }`
/// inheriting the string at `workspace.package.rust-version` of the
/// workspace manifest.
pub open spec fn spec_package_rust_version(
    target: Seq<char>,
    target_path: Seq<char>,
    workspace: Seq<char>,
    workspace_path: Seq<char>,
) -> Result<Option<(Seq<char>, Seq<char>, Seq<char>)>, Seq<char>> {
    match toml_field_at(target, seq!["package"@, "rust-version"@]) {
        TomlField::Missing => Ok(None),
        TomlField::Text(v) => Ok(Some((v@, "cargo_package_rust_version"@, target_path))),
        TomlField::Table(keys) => if keys@.len() == 1 && toml_field_at(
            target,
            seq!["package"@, "rust-version"@, "workspace"@],
        ) == TomlField::Flag(true) {
            match toml_field_at(workspace, seq!["workspace"@, "package"@, "rust-version"@]) {
                TomlField::Text(v) => Ok(Some((v@, "cargo_workspace_package_rust_version"@, workspace_path))),
                _ => Err(inherited_rust_version_message()),
            }
        } else {
            Err(rust_version_shape_message())
        },
        _ => Err(rust_version_shape_message()),
    }
}

pub open spec fn rust_version_is(r: Option<RustVersion>, want: Option<(Seq<char>, Seq<char>, Seq<char>)>) -> bool {
    match want {
        None => r is None,
        Some((v, kind, path)) => r matches Some(rv) && rv.version@ == v && source_is(
            rv.source,
            kind,
            path,
            Confidence::Declared,
        ),
    }
}

fn flag_is_true(f: &TomlField) -> (r: bool)
    ensures
        r == (*f == TomlField::Flag(true)),
{
    match f {
        TomlField::Flag(b) => *b,
        _ => false,
    }
}

/// Reads the Rust version of the package in `target` (see
/// `spec_package_rust_version`).
pub fn package_rust_version(target: &str, target_path: &str, workspace: &str, workspace_path: &str) -> (r: Result<Option<RustVersion>, String>)
    ensures
        match spec_package_rust_version(target@, target_path@, workspace@, workspace_path@) {
            Ok(want) => r matches Ok(v) && rust_version_is(v, want),
            Err(m) => r matches Err(e) && e@ == m,
        },
{
    let keys = vec!["package", "rust-version"];
    assert(key_views(keys@) =~= seq!["package"@, "rust-version"@]);
    match toml_field(target, &keys) {
        TomlField::Missing => Ok(None),
        TomlField::Text(v) => Ok(Some(RustVersion {
            version: v,
            source: source("cargo_package_rust_version", target_path, Confidence::Declared),
        })),
        TomlField::Table(table_keys) => {
            let flag_keys = vec!["package", "rust-version", "workspace"];
            assert(key_views(flag_keys@) =~= seq!["package"@, "rust-version"@, "workspace"@]);
            let flag = toml_field(target, &flag_keys);
            if table_keys.len() == 1 && flag_is_true(&flag) {
                let inherited = vec!["workspace", "package", "rust-version"];
                assert(key_views(inherited@) =~= seq!["workspace"@, "package"@, "rust-version"@]);
                match toml_field(workspace, &inherited) {
                    TomlField::Text(v) => Ok(Some(RustVersion {
                        version: v,
                        source: source("cargo_workspace_package_rust_version", workspace_path, Confidence::Declared),
                    })),
                    _ => Err(String::from_str(
                        "workspace-inherited Cargo rust-version requires a string at workspace.package.rust-version",
                    )),
                }
            } else {
                Err(String::from_str("Cargo package rust-version must be a string or { workspace = true }"))
            }
        },
        _ => Err(String::from_str("Cargo package rust-version must be a string or { workspace = true }")),
    }
}

/// The workspace that owns a target, when it is not the target itself:
/// its root directory (repository-relative) and its manifest.
pub struct WorkspaceOwner {
    pub root: String,
    pub manifest: ManifestText,
}

/// Who owns a target: the owning workspace when it is another directory,
/// the target's manifest, its package name and its Rust version.
pub struct Ownership {
    pub workspace_path: Option<String>,
    pub manifest_path: String,
    pub package_name: Option<String>,
    pub rust_version: Option<RustVersion>,
}

pub open spec fn text_at(content: Seq<char>, keys: Seq<Seq<char>>) -> Option<Seq<char>> {
    match toml_field_at(content, keys) {
        TomlField::Text(t) => Some(t@),
        _ => None,
    }
}

pub open spec fn opt_string_is(r: Option<String>, want: Option<Seq<char>>) -> bool {
    match want {
        None => r is None,
        Some(w) => r matches Some(s) && s@ == w,
    }
}

/// The ownership of a target whose manifest is `target`, owned by
/// `workspace` (or by itself): the first manifest that does not parse
/// fails it, then its Rust version may.
pub open spec fn spec_ownership_error(target: ManifestText, workspace: Option<WorkspaceOwner>) -> Option<Seq<char>> {
    let ws = match workspace {
        Some(w) => w.manifest,
        None => target,
    };
    if spec_parse_failure(target) is Some {
        spec_parse_failure(target)
    } else if spec_parse_failure(ws) is Some {
        spec_parse_failure(ws)
    } else {
        match spec_package_rust_version(target.content@, target.path@, ws.content@, ws.path@) {
            Err(m) => Some(m),
            Ok(_) => None,
        }
    }
}

pub fn ownership(target: &ManifestText, workspace: &Option<WorkspaceOwner>) -> (r: Result<Ownership, String>)
    ensures
        match spec_ownership_error(*target, *workspace) {
            Some(m) => r matches Err(e) && e@ == m,
            None => r matches Ok(o) && o.manifest_path@ == target.path@ && opt_string_is(
                o.package_name,
                text_at(target.content@, seq!["package"@, "name"@]),
            ) && match *workspace {
                Some(w) => o.workspace_path matches Some(p) && p@ == w.root@,
                None => o.workspace_path is None,
            } && {
                let ws = match *workspace {
                    Some(w) => w.manifest,
                    None => *target,
                };
                spec_package_rust_version(target.content@, target.path@, ws.content@, ws.path@) matches Ok(want)
                    && rust_version_is(o.rust_version, want)
            },
        },
{
    if let Some(e) = parse_failure(target) {
        return Err(e);
    }
    let ws = match workspace {
        Some(w) => &w.manifest,
        None => target,
    };
    if let Some(e) = parse_failure(ws) {
        return Err(e);
    }
    let rust_version = package_rust_version(target.content.as_str(), target.path.as_str(), ws.content.as_str(), ws.path.as_str())?;
    let name_keys = vec!["package", "name"];
    assert(key_views(name_keys@) =~= seq!["package"@, "name"@]);
    let package_name = match toml_field(target.content.as_str(), &name_keys) {
        TomlField::Text(n) => Some(n),
        _ => None,
    };
    let workspace_path = match workspace {
        Some(w) => Some(w.root.clone()),
        None => None,
    };
    Ok(Ownership { workspace_path, manifest_path: target.path.clone(), package_name, rust_version })
}


/// The patterns of `workspace.<name>` read in order: the first item that is
/// not a string, or does not compile as a glob pattern, fails them.
pub open spec fn spec_pattern_items(items: Seq<Option<String>>, file: Seq<char>, name: Seq<char>) -> Result<Seq<Seq<char>>, Seq<char>>
    decreases items.len(),
{
    if items.len() == 0 {
        Ok(seq![])
    } else {
        match spec_pattern_items(items.drop_last(), file, name) {
            Err(e) => Err(e),
            Ok(ps) => match items.last() {
                None => Err(file + " workspace."@ + name + " must contain only strings"@),
                Some(t) => match crate::globs::glob_pattern_error(t@) {
                    Some(e) => Err("invalid Cargo workspace "@ + name + " pattern "@ + t@ + ": "@ + e),
                    None => Ok(ps.push(t@)),
                },
            },
        }
    }
}

/// `workspace.<name>`: absent is no pattern; anything but an array is an
/// error.
pub open spec fn spec_pattern_field(field: TomlField, file: Seq<char>, name: Seq<char>) -> Result<Seq<Seq<char>>, Seq<char>> {
    match field {
        TomlField::Missing => Ok(seq![]),
        TomlField::List(items) => spec_pattern_items(items@, file, name),
        _ => Err(file + " workspace."@ + name + " must be an array of strings"@),
    }
}

pub open spec fn all_compile(ps: Seq<Seq<char>>) -> bool {
    forall|i: int| 0 <= i < ps.len() ==> crate::globs::glob_pattern_error(#[trigger] ps[i]) is None
}

proof fn lemma_pattern_items_compile(items: Seq<Option<String>>, file: Seq<char>, name: Seq<char>)
    ensures
        spec_pattern_items(items, file, name) matches Ok(ps) ==> all_compile(ps),
    decreases items.len(),
{
    if items.len() > 0 {
        lemma_pattern_items_compile(items.drop_last(), file, name);
    }
}

fn workspace_patterns(content: &str, name: &str, file: &str) -> (r: Result<Vec<String>, String>)
    ensures
        match spec_pattern_field(toml_field_at(content@, seq!["workspace"@, name@]), file@, name@) {
            Ok(ps) => r matches Ok(v) && string_views(v@) == ps && all_compile(ps),
            Err(m) => r matches Err(e) && e@ == m,
        },
{
    let keys = vec!["workspace", name];
    assert(key_views(keys@) =~= seq!["workspace"@, name@]);
    match toml_field(content, &keys) {
        TomlField::Missing => {
            let empty: Vec<String> = Vec::new();
            assert(string_views(empty@) =~= seq![]);
            Ok(empty)
        },
        TomlField::List(items) => {
            let mut out: Vec<String> = Vec::new();
            let mut i: usize = 0;
            assert(string_views(out@) =~= seq![]);
            assert(items@.take(0).len() == 0);
            while i < items.len()
                invariant
                    toml_field_at(content@, seq!["workspace"@, name@]) == TomlField::List(items),
                    i <= items@.len(),
                    spec_pattern_items(items@.take(i as int), file@, name@) == Ok::<Seq<Seq<char>>, Seq<char>>(string_views(out@)),
                decreases items@.len() - i,
            {
                assert(items@.take(i + 1).drop_last() =~= items@.take(i as int));
                assert(items@.take(i + 1).last() == items@[i as int]);
                match &items[i] {
                    None => {
                        assert(items@.take(i + 1).last() == items@[i as int]);
                        proof {
                            lemma_pattern_prefix_error(items@, i as int + 1, file@, name@);
                        }
                        let mut m = concat3(file, " workspace.", name);
                        m.append(" must contain only strings");
                        return Err(m);
                    },
                    Some(text) => {
                        match crate::globs::pattern_error(text.as_str()) {
                            Some(e) => {
                                proof {
                            lemma_pattern_prefix_error(items@, i as int + 1, file@, name@);
                        }
                                let mut m = concat3("invalid Cargo workspace ", name, " pattern ");
                                m.append(text.as_str());
                                m.append(": ");
                                m.append(e.as_str());
                                return Err(m);
                            },
                            None => {
                                let ghost before = out@;
                                out.push(text.clone());
                                assert(string_views(out@) =~= string_views(before).push(text@));
                                assert(spec_pattern_items(items@.take(i + 1), file@, name@) == Ok::<
                                    Seq<Seq<char>>,
                                    Seq<char>,
                                >(string_views(before).push(text@)));
                            },
                        }
                    },
                }
                i = i + 1;
            }
            assert(items@.take(items@.len() as int) =~= items@);
            proof {
                lemma_pattern_items_compile(items@, file@, name@);
            }
            Ok(out)
        },
        _ => {
            let mut m = concat3(file, " workspace.", name);
            m.append(" must be an array of strings");
            Err(m)
        },
    }
}

/// An error among the first `n` items is the error of all of them.
proof fn lemma_pattern_prefix_error(items: Seq<Option<String>>, n: int, file: Seq<char>, name: Seq<char>)
    requires
        0 <= n <= items.len(),
        spec_pattern_items(items.take(n), file, name) is Err,
    ensures
        spec_pattern_items(items, file, name) == spec_pattern_items(items.take(n), file, name),
    decreases items.len() - n,
{
    if n < items.len() {
        assert(items.take(n + 1).drop_last() =~= items.take(n));
        lemma_pattern_prefix_error(items, n + 1, file, name);
    } else {
        assert(items.take(n) =~= items);
    }
}

pub open spec fn any_glob_matches(patterns: Seq<Seq<char>>, text: Seq<char>) -> bool {
    exists|i: int| 0 <= i < patterns.len() && crate::globs::glob_matches(#[trigger] patterns[i], text)
}

fn any_pattern_matches(patterns: &Vec<String>, text: &str) -> (r: bool)
    requires
        all_compile(string_views(patterns@)),
    ensures
        r == any_glob_matches(string_views(patterns@), text@),
{
    let mut i: usize = 0;
    while i < patterns.len()
        invariant
            i <= patterns@.len(),
            all_compile(string_views(patterns@)),
            forall|j: int| 0 <= j < i ==> !crate::globs::glob_matches(#[trigger] string_views(patterns@)[j], text@),
        decreases patterns@.len() - i,
    {
        assert(string_views(patterns@)[i as int] == patterns@[i as int]@);
        if crate::globs::pattern_matches(patterns[i].as_str(), text) {
            return true;
        }
        i = i + 1;
    }
    false
}

/// Whether the manifest at an ancestor of a target claims it as a
/// workspace member. `relative_target` is the target's path below the
/// ancestor, empty when the ancestor is the target. A manifest without a
/// `[workspace]` claims nothing; the target's own workspace claims it; an
/// exclude pattern that matches wins over a member pattern.
pub open spec fn spec_workspace_claims(m: ManifestText, relative_target: Seq<char>) -> Result<bool, Seq<char>> {
    match spec_parse_failure(m) {
        Some(e) => Err(e),
        None => match toml_field_at(m.content@, seq!["workspace"@]) {
            TomlField::Missing => Ok(false),
            _ => if relative_target.len() == 0 {
                Ok(true)
            } else {
                match spec_pattern_field(toml_field_at(m.content@, seq!["workspace"@, "members"@]), m.file@, "members"@) {
                    Err(e) => Err(e),
                    Ok(members) => match spec_pattern_field(
                        toml_field_at(m.content@, seq!["workspace"@, "exclude"@]),
                        m.file@,
                        "exclude"@,
                    ) {
                        Err(e) => Err(e),
                        Ok(excludes) => Ok(!any_glob_matches(excludes, relative_target) && any_glob_matches(
                            members,
                            relative_target,
                        )),
                    },
                }
            },
        },
    }
}

pub fn workspace_claims_target(m: &ManifestText, relative_target: &str) -> (r: Result<bool, String>)
    ensures
        match spec_workspace_claims(*m, relative_target@) {
            Ok(b) => r == Ok::<bool, String>(b),
            Err(e) => r matches Err(x) && x@ == e,
        },
{
    if let Some(e) = parse_failure(m) {
        return Err(e);
    }
    let keys = vec!["workspace"];
    assert(key_views(keys@) =~= seq!["workspace"@]);
    match toml_field(m.content.as_str(), &keys) {
        TomlField::Missing => {
            return Ok(false);
        },
        _ => {},
    }
    proof {
        reveal_strlit("");
    }
    if crate::text::str_eq(relative_target, "") {
        return Ok(true);
    }
    assert(relative_target@.len() != 0) by {
        if relative_target@.len() == 0 {
            assert(relative_target@ =~= ""@);
        }
    }
    let members = match workspace_patterns(m.content.as_str(), "members", m.file.as_str()) {
        Ok(ps) => ps,
        Err(e) => {
            return Err(e);
        },
    };
    let excludes = match workspace_patterns(m.content.as_str(), "exclude", m.file.as_str()) {
        Ok(ps) => ps,
        Err(e) => {
            return Err(e);
        },
    };
    if any_pattern_matches(&excludes, relative_target) {
        return Ok(false);
    }
    Ok(any_pattern_matches(&members, relative_target))
}

/// `package.workspace` of a target's manifest: absent, or the path it
/// names, which must be a string.
pub open spec fn spec_explicit_workspace(m: ManifestText) -> Result<Option<Seq<char>>, Seq<char>> {
    match spec_parse_failure(m) {
        Some(e) => Err(e),
        None => match toml_field_at(m.content@, seq!["package"@, "workspace"@]) {
            TomlField::Missing => Ok(None),
            TomlField::Text(w) => Ok(Some(w@)),
            _ => Err(m.file@ + " package.workspace must be a string"@),
        },
    }
}

pub fn explicit_workspace(m: &ManifestText) -> (r: Result<Option<String>, String>)
    ensures
        match spec_explicit_workspace(*m) {
            Ok(w) => r matches Ok(x) && opt_string_is(x, w),
            Err(e) => r matches Err(x) && x@ == e,
        },
{
    if let Some(e) = parse_failure(m) {
        return Err(e);
    }
    let keys = vec!["package", "workspace"];
    assert(key_views(keys@) =~= seq!["package"@, "workspace"@]);
    match toml_field(m.content.as_str(), &keys) {
        TomlField::Missing => Ok(None),
        TomlField::Text(w) => Ok(Some(w)),
        _ => Err(concat(m.file.as_str(), " package.workspace must be a string")),
    }
}

/// The checks on an explicit workspace, resolved to `candidate`: it stays
/// in the repository, it is an ancestor of the target, and its manifest
/// parses and has a `[workspace]` table.
pub open spec fn spec_explicit_workspace_check(repo_root: Seq<char>, target_root: Seq<char>, candidate: Seq<char>, m: ManifestText) -> Option<Seq<char>> {
    if !crate::paths::path_starts_with_spec(candidate, repo_root) {
        Some("explicit Cargo workspace escapes repository"@)
    } else if !crate::paths::path_starts_with_spec(target_root, candidate) {
        Some("non-ancestor package.workspace is not supported by the environment ownership contract"@)
    } else if spec_parse_failure(m) is Some {
        spec_parse_failure(m)
    } else if toml_field_at(m.content@, seq!["workspace"@]) == TomlField::Missing {
        Some("explicit Cargo workspace has no [workspace] table: "@ + m.file@)
    } else {
        None
    }
}

pub fn check_explicit_workspace(repo_root: &str, target_root: &str, candidate: &str, m: &ManifestText) -> (r: Result<(), String>)
    ensures
        match spec_explicit_workspace_check(repo_root@, target_root@, candidate@, *m) {
            None => r is Ok,
            Some(e) => r matches Err(x) && x@ == e,
        },
{
    if !crate::paths::path_starts_with(candidate, repo_root) {
        return Err(String::from_str("explicit Cargo workspace escapes repository"));
    }
    if !crate::paths::path_starts_with(target_root, candidate) {
        return Err(String::from_str("non-ancestor package.workspace is not supported by the environment ownership contract"));
    }
    if let Some(e) = parse_failure(m) {
        return Err(e);
    }
    let keys = vec!["workspace"];
    assert(key_views(keys@) =~= seq!["workspace"@]);
    match toml_field(m.content.as_str(), &keys) {
        TomlField::Missing => Err(concat("explicit Cargo workspace has no [workspace] table: ", m.file.as_str())),
        _ => Ok(()),
    }
}


/// The `path` of each dependency named in `names` of the table at
/// `table`, in order; dependencies without a string `path` give nothing.
pub open spec fn dep_paths_of_names(content: Seq<char>, table: Seq<Seq<char>>, names: Seq<String>) -> Seq<Seq<char>>
    decreases names.len(),
{
    if names.len() == 0 {
        seq![]
    } else {
        dep_paths_of_names(content, table, names.drop_last()) + match toml_field_at(
            content,
            table.push(names.last()@).push("path"@),
        ) {
            TomlField::Text(p) => seq![p@],
            _ => seq![],
        }
    }
}

/// The paths of the dependencies in the table at `table`; nothing when it
/// is not a table.
pub open spec fn dependency_table_paths(content: Seq<char>, table: Seq<Seq<char>>) -> Seq<Seq<char>> {
    match toml_field_at(content, table) {
        TomlField::Table(names) => dep_paths_of_names(content, table, names@),
        _ => seq![],
    }
}

/// The dependency paths of the three dependency tables under `prefix`.
pub open spec fn section_paths(content: Seq<char>, prefix: Seq<Seq<char>>) -> Seq<Seq<char>> {
    dependency_table_paths(content, prefix.push("dependencies"@)) + dependency_table_paths(
        content,
        prefix.push("dev-dependencies"@),
    ) + dependency_table_paths(content, prefix.push("build-dependencies"@))
}

pub open spec fn target_paths(content: Seq<char>, names: Seq<String>) -> Seq<Seq<char>>
    decreases names.len(),
{
    if names.len() == 0 {
        seq![]
    } else {
        target_paths(content, names.drop_last()) + section_paths(content, seq!["target"@, names.last()@])
    }
}

pub open spec fn patch_paths(content: Seq<char>, names: Seq<String>) -> Seq<Seq<char>>
    decreases names.len(),
{
    if names.len() == 0 {
        seq![]
    } else {
        patch_paths(content, names.drop_last()) + dependency_table_paths(content, seq!["patch"@, names.last()@])
    }
}

pub open spec fn table_names(content: Seq<char>, keys: Seq<Seq<char>>) -> Seq<String> {
    match toml_field_at(content, keys) {
        TomlField::Table(names) => names@,
        _ => seq![],
    }
}

/// The `path` dependencies a Cargo manifest declares, in the order they are
/// found: its own dependency tables, those of each `[target.*]`, those of
/// `[workspace]`, each `[patch.*]` registry, and `[replace]`.
pub open spec fn spec_cargo_path_dependencies(content: Seq<char>) -> Seq<Seq<char>> {
    section_paths(content, seq![]) + target_paths(content, table_names(content, seq!["target"@])) + section_paths(
        content,
        seq!["workspace"@],
    ) + patch_paths(content, table_names(content, seq!["patch"@])) + dependency_table_paths(
        content,
        seq!["replace"@],
    )
}

pub(crate) fn keys_with<'a>(prefix: &Vec<&'a str>, more: &Vec<&'a str>) -> (r: Vec<&'a str>)
    ensures
        r@ == prefix@ + more@,
        key_views(r@) == key_views(prefix@) + key_views(more@),
{
    let mut out: Vec<&'a str> = Vec::new();
    let mut i: usize = 0;
    while i < prefix.len()
        invariant
            i <= prefix@.len(),
            out@ == prefix@.take(i as int),
        decreases prefix@.len() - i,
    {
        out.push(prefix[i]);
        assert(out@ =~= prefix@.take(i + 1));
        i = i + 1;
    }
    let mut j: usize = 0;
    while j < more.len()
        invariant
            i == prefix@.len(),
            j <= more@.len(),
            out@ == prefix@ + more@.take(j as int),
        decreases more@.len() - j,
    {
        out.push(more[j]);
        assert(out@ =~= prefix@ + more@.take(j + 1));
        j = j + 1;
    }
    assert(out@ =~= prefix@ + more@);
    assert(key_views(out@) =~= key_views(prefix@) + key_views(more@));
    out
}

pub(crate) fn table_key_names(content: &str, keys: &Vec<&str>) -> (r: Vec<String>)
    ensures
        r@ == table_names(content@, key_views(keys@)),
{
    match toml_field(content, keys) {
        TomlField::Table(names) => names,
        _ => Vec::new(),
    }
}

fn push_table_paths(content: &str, table: &Vec<&str>, out: &mut Vec<String>)
    ensures
        string_views(final(out)@) == string_views(old(out)@) + dependency_table_paths(content@, key_views(table@)),
{
    let names = match toml_field(content, table) {
        TomlField::Table(names) => names,
        _ => {
            assert(string_views(out@) =~= string_views(old(out)@) + seq![]);
            return;
        },
    };
    let ghost t = key_views(table@);
    let mut i: usize = 0;
    while i < names.len()
        invariant
            toml_field_at(content@, t) == TomlField::Table(names),
            t == key_views(table@),
            i <= names@.len(),
            string_views(out@) == string_views(old(out)@) + dep_paths_of_names(content@, t, names@.take(i as int)),
        decreases names@.len() - i,
    {
        let more = vec![names[i].as_str(), "path"];
        let keys = keys_with(table, &more);
        assert(key_views(more@) =~= seq![names@[i as int]@, "path"@]);
        assert(key_views(keys@) =~= t.push(names@[i as int]@).push("path"@));
        assert(names@.take(i + 1).drop_last() =~= names@.take(i as int));
        assert(names@.take(i + 1).last() == names@[i as int]);
        let ghost before = out@;
        match toml_field(content, &keys) {
            TomlField::Text(p) => {
                out.push(p);
                assert(string_views(out@) =~= string_views(before) + seq![out@.last()@]);
            },
            _ => {},
        }
        assert(string_views(out@) =~= string_views(old(out)@) + dep_paths_of_names(content@, t, names@.take(i + 1)));
        i = i + 1;
    }
    assert(names@.take(names@.len() as int) =~= names@);
}

fn push_section_paths(content: &str, prefix: &Vec<&str>, out: &mut Vec<String>)
    ensures
        string_views(final(out)@) == string_views(old(out)@) + section_paths(content@, key_views(prefix@)),
{
    let ghost p = key_views(prefix@);
    let deps = keys_with(prefix, &vec!["dependencies"]);
    let dev = keys_with(prefix, &vec!["dev-dependencies"]);
    let build = keys_with(prefix, &vec!["build-dependencies"]);
    assert(key_views(deps@) =~= p.push("dependencies"@));
    assert(key_views(dev@) =~= p.push("dev-dependencies"@));
    assert(key_views(build@) =~= p.push("build-dependencies"@));
    push_table_paths(content, &deps, out);
    push_table_paths(content, &dev, out);
    push_table_paths(content, &build, out);
    assert(string_views(out@) =~= string_views(old(out)@) + section_paths(content@, p));
}

/// The `path` dependencies of a Cargo manifest (see
/// `spec_cargo_path_dependencies`).
pub fn cargo_path_dependencies(content: &str) -> (r: Vec<String>)
    ensures
        string_views(r@) == spec_cargo_path_dependencies(content@),
{
    let mut out: Vec<String> = Vec::new();
    let root: Vec<&str> = Vec::new();
    assert(key_views(root@) =~= seq![]);
    push_section_paths(content, &root, &mut out);
    let target_key = vec!["target"];
    assert(key_views(target_key@) =~= seq!["target"@]);
    let targets = table_key_names(content, &target_key);
    let ghost after_root = string_views(out@);
    let mut i: usize = 0;
    while i < targets.len()
        invariant
            i <= targets@.len(),
            string_views(out@) == after_root + target_paths(content@, targets@.take(i as int)),
        decreases targets@.len() - i,
    {
        let prefix = vec!["target", targets[i].as_str()];
        assert(key_views(prefix@) =~= seq!["target"@, targets@[i as int]@]);
        push_section_paths(content, &prefix, &mut out);
        assert(targets@.take(i + 1).drop_last() =~= targets@.take(i as int));
        assert(targets@.take(i + 1).last() == targets@[i as int]);
        assert(string_views(out@) =~= after_root + target_paths(content@, targets@.take(i + 1)));
        i = i + 1;
    }
    assert(targets@.take(targets@.len() as int) =~= targets@);
    let workspace = vec!["workspace"];
    assert(key_views(workspace@) =~= seq!["workspace"@]);
    push_section_paths(content, &workspace, &mut out);
    let patch_key = vec!["patch"];
    assert(key_views(patch_key@) =~= seq!["patch"@]);
    let registries = table_key_names(content, &patch_key);
    let ghost after_workspace = string_views(out@);
    let mut k: usize = 0;
    while k < registries.len()
        invariant
            k <= registries@.len(),
            string_views(out@) == after_workspace + patch_paths(content@, registries@.take(k as int)),
        decreases registries@.len() - k,
    {
        let table = vec!["patch", registries[k].as_str()];
        assert(key_views(table@) =~= seq!["patch"@, registries@[k as int]@]);
        push_table_paths(content, &table, &mut out);
        assert(registries@.take(k + 1).drop_last() =~= registries@.take(k as int));
        assert(registries@.take(k + 1).last() == registries@[k as int]);
        assert(string_views(out@) =~= after_workspace + patch_paths(content@, registries@.take(k + 1)));
        k = k + 1;
    }
    assert(registries@.take(registries@.len() as int) =~= registries@);
    let replace = vec!["replace"];
    assert(key_views(replace@) =~= seq!["replace"@]);
    push_table_paths(content, &replace, &mut out);
    assert(string_views(out@) =~= spec_cargo_path_dependencies(content@));
    out
}


/// A workspace member: a member pattern matches its directory and no
/// exclude pattern does.
pub open spec fn is_workspace_member(relative: Seq<char>, members: Seq<Seq<char>>, excludes: Seq<Seq<char>>) -> bool {
    any_glob_matches(members, relative) && !any_glob_matches(excludes, relative)
}

pub open spec fn member_pred(members: Seq<Seq<char>>, excludes: Seq<Seq<char>>) -> spec_fn(Seq<char>) -> bool {
    |d: Seq<char>| is_workspace_member(d, members, excludes)
}

pub open spec fn member_dirs(dirs: Seq<Seq<char>>, members: Seq<Seq<char>>, excludes: Seq<Seq<char>>) -> Seq<Seq<char>> {
    dirs.filter(member_pred(members, excludes))
}

/// Of the directories holding a `Cargo.toml` below a workspace owner
/// (relative to it), those its `[workspace]` takes as members; none when
/// the owner's manifest has no `[workspace]`.
pub open spec fn spec_workspace_members(owner: ManifestText, dirs: Seq<Seq<char>>) -> Result<Seq<Seq<char>>, Seq<char>> {
    match spec_parse_failure(owner) {
        Some(e) => Err(e),
        None => match toml_field_at(owner.content@, seq!["workspace"@]) {
            TomlField::Missing => Ok(seq![]),
            _ => match spec_pattern_field(
                toml_field_at(owner.content@, seq!["workspace"@, "members"@]),
                owner.file@,
                "members"@,
            ) {
                Err(e) => Err(e),
                Ok(members) => match spec_pattern_field(
                    toml_field_at(owner.content@, seq!["workspace"@, "exclude"@]),
                    owner.file@,
                    "exclude"@,
                ) {
                    Err(e) => Err(e),
                    Ok(excludes) => Ok(member_dirs(dirs, members, excludes)),
                },
            },
        },
    }
}

pub fn workspace_members(owner: &ManifestText, dirs: &Vec<String>) -> (r: Result<Vec<String>, String>)
    ensures
        match spec_workspace_members(*owner, string_views(dirs@)) {
            Ok(ds) => r matches Ok(v) && string_views(v@) == ds,
            Err(e) => r matches Err(x) && x@ == e,
        },
{
    if let Some(e) = parse_failure(owner) {
        return Err(e);
    }
    let keys = vec!["workspace"];
    assert(key_views(keys@) =~= seq!["workspace"@]);
    match toml_field(owner.content.as_str(), &keys) {
        TomlField::Missing => {
            let none: Vec<String> = Vec::new();
            assert(string_views(none@) =~= seq![]);
            return Ok(none);
        },
        _ => {},
    }
    let members = match workspace_patterns(owner.content.as_str(), "members", owner.file.as_str()) {
        Ok(ps) => ps,
        Err(e) => {
            return Err(e);
        },
    };
    let excludes = match workspace_patterns(owner.content.as_str(), "exclude", owner.file.as_str()) {
        Ok(ps) => ps,
        Err(e) => {
            return Err(e);
        },
    };
    let ghost m = string_views(members@);
    let ghost x = string_views(excludes@);
    let ghost ds = string_views(dirs@);
    let mut out: Vec<String> = Vec::new();
    let mut i: usize = 0;
    while i < dirs.len()
        invariant
            i <= dirs@.len(),
            m == string_views(members@),
            x == string_views(excludes@),
            ds == string_views(dirs@),
            all_compile(m),
            all_compile(x),
            string_views(out@) == member_dirs(ds.take(i as int), m, x),
        decreases dirs@.len() - i,
    {
        let d = dirs[i].as_str();
        let keep = any_pattern_matches(&members, d) && !any_pattern_matches(&excludes, d);
        let ghost before = string_views(out@);
        if keep {
            out.push(dirs[i].clone());
        }
        proof {
            assert(ds.take(i + 1) =~= ds.take(i as int).push(ds[i as int]));
            ds.take(i as int).lemma_filter_push(ds[i as int], member_pred(m, x));
            assert(dirs@[i as int]@ == ds[i as int]);
            if keep {
                assert(string_views(out@) =~= before.push(ds[i as int]));
            } else {
                assert(string_views(out@) =~= before);
            }
        }
        i = i + 1;
    }
    assert(ds.take(dirs@.len() as int) =~= ds);
    Ok(out)
}

/// A file a target's dependencies are locked by, with its digest.
pub struct DependencyLock {
    pub path: String,
    pub digest: String,
    pub owner_root: String,
    pub source: RequirementSource,
}

pub open spec fn lock_source_kind(path: Seq<char>) -> Seq<char> {
    if crate::text::ends_with(path, "Cargo.lock"@) {
        "cargo_lock"@
    } else {
        "cargo_manifest"@
    }
}

/// The lock requirement of the Cargo input at `path` (repository-relative)
/// whose bytes are `content`: a `Cargo.lock` is a lock, anything else a
/// manifest; the digest is `sha256:` and the hex SHA-256 of the bytes.
pub fn dependency_lock(path: &str, content: &[u8], owner_root: &str) -> (r: DependencyLock)
    ensures
        r.path@ == path@,
        r.digest@ == "sha256:"@ + crate::environment_plan::sha256_hex(content@),
        r.owner_root@ == owner_root@,
        source_is(r.source, lock_source_kind(path@), path@, Confidence::Exact),
{
    let hex = crate::environment_plan::sha256_text(content);
    let digest = concat("sha256:", hex.as_str());
    let p = crate::text::chars_of(path);
    let lock = crate::text::chars_of("Cargo.lock");
    let kind = if crate::text::chars_end_with(&p, &lock) { "cargo_lock" } else { "cargo_manifest" };
    DependencyLock {
        path: String::from_str(path),
        digest,
        owner_root: String::from_str(owner_root),
        source: source(kind, path, Confidence::Exact),
    }
}


/// A dependency a crate's manifest declares: its key and the `path` it
/// gives, if it gives one as a string.
pub struct DeclaredDependency {
    pub name: String,
    pub path: Option<String>,
}

/// What the deps signal reads from a crate's manifest: the package name and
/// the `[dependencies]` in key order.
pub struct CrateManifest {
    pub name: String,
    pub dependencies: Vec<DeclaredDependency>,
}

pub open spec fn declared_of(content: Seq<char>, names: Seq<String>) -> Seq<(Seq<char>, Option<Seq<char>>)> {
    names.map_values(|n: String| (n@, text_at(content, seq!["dependencies"@, n@, "path"@])))
}

pub open spec fn declared_views(ds: Seq<DeclaredDependency>) -> Seq<(Seq<char>, Option<Seq<char>>)> {
    ds.map_values(|d: DeclaredDependency| (d.name@, match d.path {
        Some(p) => Some(p@),
        None => None,
    }))
}

/// A crate manifest: it fails when it does not parse; it is no crate
/// without a `[package]` table with a string `name`.
pub open spec fn spec_crate_manifest(m: ManifestText) -> Result<Option<(Seq<char>, Seq<(Seq<char>, Option<Seq<char>>)>)>, Seq<char>> {
    match spec_parse_failure(m) {
        Some(e) => Err(e),
        None => match (toml_field_at(m.content@, seq!["package"@]), text_at(m.content@, seq!["package"@, "name"@])) {
            (TomlField::Table(_), Some(name)) => Ok(Some((
                name,
                declared_of(m.content@, table_names(m.content@, seq!["dependencies"@])),
            ))),
            _ => Ok(None),
        },
    }
}

pub fn crate_manifest(m: &ManifestText) -> (r: Result<Option<CrateManifest>, String>)
    ensures
        match spec_crate_manifest(*m) {
            Err(e) => r matches Err(x) && x@ == e,
            Ok(None) => r matches Ok(None),
            Ok(Some((name, deps))) => r matches Ok(Some(c)) && c.name@ == name && declared_views(c.dependencies@)
                == deps,
        },
{
    if let Some(e) = parse_failure(m) {
        return Err(e);
    }
    let package = vec!["package"];
    assert(key_views(package@) =~= seq!["package"@]);
    let name_keys = vec!["package", "name"];
    assert(key_views(name_keys@) =~= seq!["package"@, "name"@]);
    let is_table = match toml_field(m.content.as_str(), &package) {
        TomlField::Table(_) => true,
        _ => false,
    };
    let name = match toml_field(m.content.as_str(), &name_keys) {
        TomlField::Text(n) => n,
        _ => {
            return Ok(None);
        },
    };
    if !is_table {
        return Ok(None);
    }
    let deps_key = vec!["dependencies"];
    assert(key_views(deps_key@) =~= seq!["dependencies"@]);
    let names = table_key_names(m.content.as_str(), &deps_key);
    let ghost c = m.content@;
    let mut dependencies: Vec<DeclaredDependency> = Vec::new();
    let mut i: usize = 0;
    while i < names.len()
        invariant
            c == m.content@,
            i <= names@.len(),
            declared_views(dependencies@) == declared_of(c, names@.take(i as int)),
        decreases names@.len() - i,
    {
        let keys = vec!["dependencies", names[i].as_str(), "path"];
        assert(key_views(keys@) =~= seq!["dependencies"@, names@[i as int]@, "path"@]);
        let field = toml_field(m.content.as_str(), &keys);
        let path = match field {
            TomlField::Text(p) => Some(p),
            _ => None,
        };
        let ghost want = text_at(c, seq!["dependencies"@, names@[i as int]@, "path"@]);
        assert(match path {
            Some(p) => Some(p@),
            None => None,
        } == want);
        let ghost before = dependencies@;
        dependencies.push(DeclaredDependency { name: names[i].clone(), path });
        assert(declared_views(dependencies@) =~= declared_views(before).push((names@[i as int]@, want)));
        assert(names@.take(i + 1) =~= names@.take(i as int).push(names@[i as int]));
        assert(declared_views(dependencies@) =~= declared_of(c, names@.take(i + 1)));
        i = i + 1;
    }
    assert(names@.take(names@.len() as int) =~= names@);
    Ok(Some(CrateManifest { name, dependencies }))
}

/// The runtime components after coverage asked for its component.
pub open spec fn with_coverage_component(signals: Seq<SignalKind>, components: Seq<Seq<char>>) -> Seq<Seq<char>> {
    if signals.contains(SignalKind::Coverage) && !components.contains(coverage_component()) {
        components.push(coverage_component())
    } else {
        components
    }
}

/// What a Rust target needs from its environment.
pub struct TargetEnvironment {
    pub workspace: Option<String>,
    pub package: Option<String>,
    pub runtime: RuntimeRequirement,
    pub signal_tools: Vec<SignalTool>,
    pub dependency_locks: Vec<DependencyLock>,
    pub warnings: Vec<EnvironmentWarning>,
    pub conflicts: Vec<ToolchainConflict>,
}

/// The environment of a Rust target, from its ownership, the toolchain
/// files found nearest to it (`rust-toolchain.toml` and the legacy
/// `rust-toolchain`, from the same directory), the requested signals, the
/// platforms and the dependency locks:
/// - a `rust-toolchain.toml` decides the runtime before a legacy file, and
///   the two conflict when both pin different channels;
/// - without either, the manifest's Rust version is a minimum, and without
///   that the runtime is unresolved with a warning;
/// - coverage adds its component, and the catalog tools of the signals are
///   offered on the platforms.
pub fn discover_environment(
    ownership: Ownership,
    toml: Option<Toolchain>,
    legacy: Option<Toolchain>,
    signals: &Vec<SignalKind>,
    platforms: &Vec<PlatformText>,
    dependency_locks: Vec<DependencyLock>,
) -> (r: TargetEnvironment)
    ensures
        r.workspace == ownership.workspace_path,
        r.package == ownership.package_name,
        r.dependency_locks == dependency_locks,
        (toml is Some && legacy is Some && toml->0.channel@ != legacy->0.channel@) ==> (r.conflicts@.len() == 1
            && r.conflicts@[0].code@ == "rust_toolchain_source_conflict"@
            && r.conflicts@[0].sources@ == seq![toml->0.source, legacy->0.source]),
        !(toml is Some && legacy is Some && toml->0.channel@ != legacy->0.channel@) ==> r.conflicts@.len() == 0,
        ({
            let chosen = if toml is Some {
                toml
            } else {
                legacy
            };
            match chosen {
                Some(t) => version_is(r.runtime.version, channel_class(t.channel@), t.channel@) && r.runtime.targets
                    == t.targets && r.runtime.source == t.source && string_views(r.runtime.components@)
                    == with_coverage_component(signals@, string_views(t.components@)) && r.warnings@.len() == 0,
                None => match ownership.rust_version {
                    Some(rv) => version_is(r.runtime.version, VersionClass::Minimum, rv.version@)
                        && r.runtime.targets@.len() == 0 && r.runtime.source == rv.source && string_views(
                        r.runtime.components@,
                    ) == with_coverage_component(signals@, seq![]) && r.warnings@.len() == 0,
                    None => version_is(
                        r.runtime.version,
                        VersionClass::Unresolved,
                        "no Rust toolchain or Cargo rust-version"@,
                    ) && r.runtime.targets@.len() == 0 && source_is(
                        r.runtime.source,
                        "unresolved"@,
                        ownership.manifest_path@,
                        Confidence::Assumed,
                    ) && string_views(r.runtime.components@) == with_coverage_component(signals@, seq![])
                        && r.warnings@.len() == 1 && r.warnings@[0].code@ == "rust_runtime_unresolved"@
                        && r.warnings@[0].message@ == unresolved_runtime_message(),
                },
            }
        }),
        tool_names(r.signal_tools@) == spec_catalog_tools(signals@),
        forall|i: int| 0 <= i < r.signal_tools@.len() ==> catalog_tool_ok(#[trigger] r.signal_tools@[i], ownership.manifest_path@, platforms@),
{
    let conflict = toolchain_conflict(&toml, &legacy);
    let mut conflicts: Vec<ToolchainConflict> = Vec::new();
    if let Some(c) = conflict {
        conflicts.push(c);
    }
    let chosen = match toml {
        Some(t) => Some(t),
        None => legacy,
    };
    let (mut runtime, warnings) = runtime_requirement(chosen, ownership.rust_version, ownership.manifest_path.as_str());
    assert(runtime.components@.len() == 0 ==> string_views(runtime.components@) =~= seq![]);
    add_coverage_component(signals, &mut runtime);
    let tools = signal_tools(signals, ownership.manifest_path.as_str(), platforms);
    TargetEnvironment {
        workspace: ownership.workspace_path,
        package: ownership.package_name,
        runtime,
        signal_tools: tools,
        dependency_locks,
        warnings,
        conflicts,
    }
}

} // verus!
