//! The Rust adapter: what it detects, how it resolves execution, and what
//! it declares about its signals.
use crate::paths::{components, path_components, render};
use crate::text::{
    chars_eq, chars_of, join_range, lines, lines_of, string_from_chars, trim, trim_bounds,
    views,
};
use crate::vocabulary::{Language, SignalKind};
use vstd::prelude::*;

verus! {

broadcast use vstd::string::group_string_axioms;

/// Collects Rust signals.
pub struct RustCollector;

/// Discovers the managed environment a Rust target needs.
pub struct RustEnvironmentCapability;

/// Maps changes to the Rust checks they affect.
pub struct RustImpactCapability;

/// The Rust language adapter.
pub struct RustAdapter {
    pub collector: RustCollector,
}

/// Whether a root holds a Rust project, how sure, and why.
pub struct DetectResult {
    pub detected: bool,
    pub confidence: u8,
    pub reason: Option<String>,
}

/// Where and how a target's commands run.
pub struct ExecutionResolution {
    pub runner: String,
    pub resolved_from: String,
    pub kind: String,
    pub source: String,
    pub confidence: u8,
    pub ambiguous: bool,
    pub install_cwd: String,
    pub exec_cwd: String,
    pub environment: Vec<(String, String)>,
}

impl ExecutionResolution {
    /// Execution directly in `root`, found from `source`.
    pub fn direct(runner: &str, root: &str, source: &str, confidence: u8) -> (r: ExecutionResolution)
        ensures
            r.runner@ == runner@,
            r.resolved_from@ == root@,
            r.kind@ == "direct"@,
            r.source@ == source@,
            r.confidence == confidence,
            !r.ambiguous,
            r.install_cwd@ == root@,
            r.exec_cwd@ == root@,
            r.environment@.len() == 0,
    {
        ExecutionResolution {
            runner: String::from_str(runner),
            resolved_from: String::from_str(root),
            kind: String::from_str("direct"),
            source: String::from_str(source),
            confidence,
            ambiguous: false,
            install_cwd: String::from_str(root),
            exec_cwd: String::from_str(root),
            environment: Vec::new(),
        }
    }
}

/// Which selectors focused verification of a signal accepts.
#[derive(Clone, Copy, Debug, PartialEq, Eq, Structural)]
pub struct VerificationSelectorSupport {
    pub file: bool,
    pub package: bool,
    pub name: bool,
}

/// Complexity thresholds that a policy must configure.
#[derive(Clone, Copy, Debug, PartialEq, Eq, Structural)]
pub enum ComplexityThresholdKind {
    FnCyclomatic,
    FnCognitive,
}

/// File globs that a language's size budget covers by default.
pub struct LanguageProfile {
    pub language: Language,
    pub default_file_globs: Vec<String>,
}

impl RustAdapter {
    pub fn new() -> (r: RustAdapter) {
        RustAdapter { collector: RustCollector }
    }

    pub fn language(&self) -> (r: Language)
        ensures
            r == Language::Rust,
    {
        Language::Rust
    }

    /// A root is a Rust project when it holds a `Cargo.toml` file.
    pub fn detect(&self, root: &str, manifest_is_file: bool) -> (r: DetectResult)
        ensures
            r.detected == manifest_is_file,
            r.confidence == (if manifest_is_file { 100u8 } else { 0u8 }),
            r.reason matches Some(reason) && reason@ == (if manifest_is_file {
                "Cargo.toml found at "@
            } else {
                "Cargo.toml not found at "@
            }) + root@,
    {
        let mut reason = if manifest_is_file {
            String::from_str("Cargo.toml found at ")
        } else {
            String::from_str("Cargo.toml not found at ")
        };
        reason.append(root);
        DetectResult {
            detected: manifest_is_file,
            confidence: if manifest_is_file {
                100
            } else {
                0
            },
            reason: Some(reason),
        }
    }

    pub fn profile(&self) -> (r: LanguageProfile)
        ensures
            r.language == Language::Rust,
            r.default_file_globs@.len() == 1 && r.default_file_globs@[0]@ == "*.rs"@,
    {
        let mut globs = Vec::new();
        globs.push(String::from_str("*.rs"));
        LanguageProfile { language: Language::Rust, default_file_globs: globs }
    }

    /// Rust requires a function cyclomatic threshold.
    pub fn required_complexity_thresholds(&self) -> (r: Vec<ComplexityThresholdKind>)
        ensures
            r@ == seq![ComplexityThresholdKind::FnCyclomatic],
    {
        let mut v = Vec::new();
        v.push(ComplexityThresholdKind::FnCyclomatic);
        assert(v@ =~= seq![ComplexityThresholdKind::FnCyclomatic]);
        v
    }

    /// Tests select by package and name; complexity and deps by file and
    /// package; size by file; coverage and mutation by nothing.
    pub fn verification_selector_support(&self, kind: SignalKind) -> (r:
        VerificationSelectorSupport)
        ensures
            r == spec_selector_support(kind),
    {
        match kind {
            SignalKind::Test => VerificationSelectorSupport { file: false, package: true, name: true },
            SignalKind::Complexity | SignalKind::Deps => VerificationSelectorSupport {
                file: true,
                package: true,
                name: false,
            },
            SignalKind::Size => VerificationSelectorSupport { file: true, package: false, name: false },
            SignalKind::Coverage | SignalKind::Mutation => VerificationSelectorSupport {
                file: false,
                package: false,
                name: false,
            },
        }
    }

    /// Cargo serializes builds on the target-directory lock, so Rust targets
    /// run one at a time.
    pub fn max_target_concurrency(&self) -> (r: Option<usize>)
        ensures
            r == Some(1usize),
    {
        Some(1)
    }

    /// Execution for a target root that holds `Cargo.toml`: in its nearest
    /// enclosing Cargo workspace when there is one, else in the root itself.
    pub fn resolve_execution(
        &self,
        repo_root: &str,
        root: &str,
        root_manifest_is_file: bool,
        ancestor_manifests: &Vec<Option<String>>,
    ) -> (r: Option<ExecutionResolution>)
        ensures
            !root_manifest_is_file <==> r is None,
            r matches Some(res) ==> match spec_workspace_ancestor(
                repo_root@,
                root@,
                ancestor_manifests@,
            ) {
                Some(w) => res.runner@ == "cargo"@ && res.resolved_from@ == w && res.kind@
                    == "workspace_ancestor"@ && res.source@ == "Cargo workspace"@
                    && res.confidence == 90 && !res.ambiguous && res.install_cwd@ == w
                    && res.exec_cwd@ == w && res.environment@.len() == 0,
                None => res.runner@ == "cargo"@ && res.resolved_from@ == root@ && res.kind@
                    == "direct"@ && res.source@ == "Cargo.toml"@ && res.confidence == 100
                    && !res.ambiguous && res.install_cwd@ == root@ && res.exec_cwd@ == root@
                    && res.environment@.len() == 0,
            },
    {
        if !root_manifest_is_file {
            return None;
        }
        match find_cargo_workspace_ancestor(repo_root, root, ancestor_manifests) {
            Some(workspace) => Some(
                ExecutionResolution {
                    runner: String::from_str("cargo"),
                    resolved_from: workspace.clone(),
                    kind: String::from_str("workspace_ancestor"),
                    source: String::from_str("Cargo workspace"),
                    confidence: 90,
                    ambiguous: false,
                    install_cwd: workspace.clone(),
                    exec_cwd: workspace,
                    environment: Vec::new(),
                },
            ),
            None => Some(ExecutionResolution::direct("cargo", root, "Cargo.toml", 100)),
        }
    }
}

pub open spec fn spec_selector_support(kind: SignalKind) -> VerificationSelectorSupport {
    match kind {
        SignalKind::Test => VerificationSelectorSupport { file: false, package: true, name: true },
        SignalKind::Complexity | SignalKind::Deps => VerificationSelectorSupport {
            file: true,
            package: true,
            name: false,
        },
        SignalKind::Size => VerificationSelectorSupport { file: true, package: false, name: false },
        SignalKind::Coverage | SignalKind::Mutation => VerificationSelectorSupport {
            file: false,
            package: false,
            name: false,
        },
    }
}

/// Whether a manifest has a line that is `[workspace]` once trimmed.
pub open spec fn has_workspace_line(content: Seq<char>) -> bool {
    exists|i: int| 0 <= i < lines(content).len() && trim(#[trigger] lines(content)[i]) == "[workspace]"@
}

pub fn manifest_has_workspace(content: &str) -> (r: bool)
    ensures
        r == has_workspace_line(content@),
{
    let v = chars_of(content);
    let ls = lines_of(&v);
    let marker = chars_of("[workspace]");
    let mut i: usize = 0;
    while i < ls.len()
        invariant
            i <= ls@.len(),
            views(ls@) == lines(content@),
            marker@ == "[workspace]"@,
            forall|k: int| 0 <= k < i ==> trim(#[trigger] lines(content@)[k]) != "[workspace]"@,
        decreases ls@.len() - i,
    {
        let (a, b) = trim_bounds(&ls[i]);
        let t = crate::text::sub_vec(&ls[i], a, b);
        assert(views(ls@)[i as int] == ls@[i as int]@);
        if chars_eq(&t, &marker) {
            return true;
        }
        i = i + 1;
    }
    false
}

/// The lowest index at which the ancestor with `j` components (counting
/// down from `from`) lies in the repository and has a workspace manifest.
pub open spec fn ancestor_search(
    repo: Seq<Seq<char>>,
    cs: Seq<Seq<char>>,
    manifests: Seq<Option<String>>,
    lowest: int,
    j: int,
) -> Option<Seq<char>>
    decreases j - lowest + 1,
{
    if j < lowest || j < 0 {
        None
    } else {
        let a = cs.take(j);
        let k = cs.len() - 1 - j;
        if !(repo.len() <= a.len() && a.take(repo.len() as int) == repo) {
            None
        } else if 0 <= k < manifests.len() && (manifests[k] matches Some(m) && has_workspace_line(
            m@,
        )) {
            Some(render(a))
        } else {
            ancestor_search(repo, cs, manifests, lowest, j - 1)
        }
    }
}

/// The nearest ancestor of `root` inside the repository whose manifest
/// declares a workspace. The ancestors of a path, nearest first, are the
/// paths of the proper prefixes of its components (down to the root, or
/// down to the empty path for a relative one); `manifests[k]` is the text of
/// the `Cargo.toml` file in the `k`-th of them, if there is one. The walk
/// stops at the first ancestor outside the repository.
pub open spec fn spec_workspace_ancestor(
    repo_root: Seq<char>,
    root: Seq<char>,
    manifests: Seq<Option<String>>,
) -> Option<Seq<char>> {
    let cs = components(root);
    let lowest = if cs.len() > 0 && cs[0] == seq!['/'] {
        1int
    } else {
        0int
    };
    ancestor_search(components(repo_root), cs, manifests, lowest, cs.len() - 1)
}

pub fn find_cargo_workspace_ancestor(
    repo_root: &str,
    root: &str,
    manifests: &Vec<Option<String>>,
) -> (r: Option<String>)
    ensures
        r matches Some(s) ==> spec_workspace_ancestor(repo_root@, root@, manifests@) == Some(s@),
        r is None ==> spec_workspace_ancestor(repo_root@, root@, manifests@) is None,
{
    let cs = path_components(root);
    let repo = path_components(repo_root);
    let slash = ['/'];
    assert(slash@ == seq!['/']);
    let lowest: usize = if cs.len() > 0 && chars_eq(&cs[0], &slash) {
        1
    } else {
        0
    };
    proof {
        if cs@.len() > 0 {
            assert(views(cs@)[0] == cs@[0]@);
        }
    }
    if cs.len() == 0 {
        return None;
    }
    let mut j: usize = cs.len() - 1;
    loop
        invariant
            lowest <= 1,
            j < cs@.len(),
            views(cs@) == components(root@),
            views(repo@) == components(repo_root@),
            lowest == (if views(cs@).len() > 0 && views(cs@)[0] == seq!['/'] {
                1int
            } else {
                0int
            }),
            spec_workspace_ancestor(repo_root@, root@, manifests@) == ancestor_search(
                views(repo@),
                views(cs@),
                manifests@,
                lowest as int,
                j as int,
            ),
        decreases j,
    {
        if j < lowest {
            return None;
        }
        let within = prefix_within(&repo, &cs, j);
        if !within {
            return None;
        }
        let k = cs.len() - 1 - j;
        if k < manifests.len() {
            match &manifests[k] {
                Some(m) => {
                    if manifest_has_workspace(m.as_str()) {
                        let path = render_prefix(&cs, j);
                        return Some(path);
                    }
                },
                None => {},
            }
        }
        if j == 0 {
            assert(ancestor_search(views(repo@), views(cs@), manifests@, lowest as int, -1) is None);
            return None;
        }
        j = j - 1;
    }
}

/// Whether the component list `repo` begins `cs[..j]`.
fn prefix_within(repo: &Vec<Vec<char>>, cs: &Vec<Vec<char>>, j: usize) -> (r: bool)
    requires
        j <= cs@.len(),
    ensures
        r == (views(repo@).len() <= views(cs@).take(j as int).len() && views(cs@).take(j as int).take(
            views(repo@).len() as int,
        ) == views(repo@)),
{
    if repo.len() > j {
        return false;
    }
    let mut i: usize = 0;
    while i < repo.len()
        invariant
            repo@.len() <= j <= cs@.len(),
            i <= repo@.len(),
            forall|k: int| 0 <= k < i ==> cs@[k]@ == repo@[k]@,
        decreases repo@.len() - i,
    {
        if !chars_eq(&cs[i], &repo[i]) {
            assert(views(cs@).take(j as int).take(repo@.len() as int)[i as int] != views(
                repo@,
            )[i as int]);
            return false;
        }
        i = i + 1;
    }
    assert(views(cs@).take(j as int).take(views(repo@).len() as int) =~= views(repo@));
    true
}

/// The path of the first `j` components.
pub fn render_prefix(cs: &Vec<Vec<char>>, j: usize) -> (r: String)
    requires
        j <= cs@.len(),
    ensures
        r@ == render(views(cs@).take(j as int)),
{
    let ghost a = views(cs@).take(j as int);
    let slash = ['/'];
    assert(slash@ == seq!['/']);
    if j > 0 && chars_eq(&cs[0], &slash) {
        let joined = join_range(cs, 1, j, &slash);
        let out = crate::text::chars_concat(&slash, &joined);
        proof {
            assert(views(cs@)[0] == cs@[0]@);
            assert(a[0] == seq!['/']);
            assert(views(cs@).subrange(1, j as int) == a.skip(1));
        }
        string_from_chars(&out)
    } else {
        let joined = join_range(cs, 0, j, &slash);
        proof {
            assert(views(cs@).subrange(0, j as int) == a);
            if j > 0 {
                assert(views(cs@)[0] == cs@[0]@);
                assert(a[0] == views(cs@)[0]);
            }
        }
        string_from_chars(&joined)
    }
}

} // verus!
