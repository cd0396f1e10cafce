//! The closed vocabularies shared by the adapter and the command line:
//! languages, signals, levels, output formats and execution modes.
use vstd::prelude::*;

verus! {

/// A language that a repository target is analyzed as.
#[derive(Clone, Copy, Debug, PartialEq, Eq, Structural)]
pub enum Language {
    Rust,
    Go,
    Node,
    Python,
    Kotlin,
}

impl Language {
    pub open spec fn spec_name(self) -> Seq<char> {
        match self {
            Language::Rust => "rust"@,
            Language::Go => "go"@,
            Language::Node => "node"@,
            Language::Python => "python"@,
            Language::Kotlin => "kotlin"@,
        }
    }

    /// The lower-case name used in configuration and command lines.
    pub fn as_str(&self) -> (r: &'static str)
        ensures
            r@ == self.spec_name(),
    {
        match self {
            Language::Rust => "rust",
            Language::Go => "go",
            Language::Node => "node",
            Language::Python => "python",
            Language::Kotlin => "kotlin",
        }
    }

    /// A dense index, used to key per-language tables.
    pub open spec fn spec_index(self) -> nat {
        match self {
            Language::Rust => 0,
            Language::Go => 1,
            Language::Node => 2,
            Language::Python => 3,
            Language::Kotlin => 4,
        }
    }

    pub fn index(&self) -> (r: usize)
        ensures
            r == self.spec_index(),
            r < 5,
    {
        match self {
            Language::Rust => 0,
            Language::Go => 1,
            Language::Node => 2,
            Language::Python => 3,
            Language::Kotlin => 4,
        }
    }
}

/// The closed signal vocabulary.
#[derive(Clone, Copy, Debug, PartialEq, Eq, Structural)]
pub enum SignalKind {
    Test,
    Coverage,
    Size,
    Complexity,
    Deps,
    Mutation,
}

pub open spec fn spec_signal_slug(kind: SignalKind) -> Seq<char> {
    match kind {
        SignalKind::Test => "test"@,
        SignalKind::Coverage => "coverage"@,
        SignalKind::Size => "size"@,
        SignalKind::Complexity => "complexity"@,
        SignalKind::Deps => "deps"@,
        SignalKind::Mutation => "mutation"@,
    }
}

/// The slug that names a signal in output and on the command line.
pub fn signal_kind_slug(kind: SignalKind) -> (r: &'static str)
    ensures
        r@ == spec_signal_slug(kind),
{
    match kind {
        SignalKind::Test => "test",
        SignalKind::Coverage => "coverage",
        SignalKind::Size => "size",
        SignalKind::Complexity => "complexity",
        SignalKind::Deps => "deps",
        SignalKind::Mutation => "mutation",
    }
}

/// Which signals a policy enables.
#[derive(Clone, Copy, Debug, PartialEq, Eq, Structural)]
pub struct Checks {
    pub test: bool,
    pub coverage: bool,
    pub size: bool,
    pub complexity: bool,
    pub deps: bool,
    pub mutation: bool,
}

pub open spec fn spec_enabled_signal_kinds(checks: Checks) -> Seq<SignalKind> {
    (if checks.test { seq![SignalKind::Test] } else { seq![] }) + (if checks.coverage {
        seq![SignalKind::Coverage]
    } else {
        seq![]
    }) + (if checks.size { seq![SignalKind::Size] } else { seq![] }) + (if checks.complexity {
        seq![SignalKind::Complexity]
    } else {
        seq![]
    }) + (if checks.deps { seq![SignalKind::Deps] } else { seq![] }) + (if checks.mutation {
        seq![SignalKind::Mutation]
    } else {
        seq![]
    })
}

/// The enabled signals in their canonical order.
pub fn enabled_signal_kinds(checks: &Checks) -> (r: Vec<SignalKind>)
    ensures
        r@ == spec_enabled_signal_kinds(*checks),
{
    let mut kinds = Vec::new();
    if checks.test {
        kinds.push(SignalKind::Test);
    }
    if checks.coverage {
        kinds.push(SignalKind::Coverage);
    }
    if checks.size {
        kinds.push(SignalKind::Size);
    }
    if checks.complexity {
        kinds.push(SignalKind::Complexity);
    }
    if checks.deps {
        kinds.push(SignalKind::Deps);
    }
    if checks.mutation {
        kinds.push(SignalKind::Mutation);
    }
    assert(kinds@ =~= spec_enabled_signal_kinds(*checks));
    kinds
}

/// Severity of an offender.
#[derive(Clone, Copy, Debug, PartialEq, Eq, Structural)]
pub enum Level {
    Warn,
    Fail,
}

/// The more severe of two optional levels: `Fail` beats `Warn` beats none.
pub open spec fn spec_max_level(left: Option<Level>, right: Option<Level>) -> Option<Level> {
    if left == Some(Level::Fail) || right == Some(Level::Fail) {
        Some(Level::Fail)
    } else if left == Some(Level::Warn) || right == Some(Level::Warn) {
        Some(Level::Warn)
    } else {
        None
    }
}

pub fn max_level(left: Option<Level>, right: Option<Level>) -> (r: Option<Level>)
    ensures
        r == spec_max_level(left, right),
{
    match (left, right) {
        (Some(Level::Fail), _) | (_, Some(Level::Fail)) => Some(Level::Fail),
        (Some(Level::Warn), _) | (_, Some(Level::Warn)) => Some(Level::Warn),
        _ => None,
    }
}

/// Where quality commands run.
#[derive(Clone, Copy, Debug, PartialEq, Eq, Structural)]
pub enum ExecutionMode {
    Managed,
    Host,
}

/// Whether a run is managed or host: `--host` selects the host.
pub fn execution_mode(host: bool) -> (r: ExecutionMode)
    ensures
        r == (if host { ExecutionMode::Host } else { ExecutionMode::Managed }),
{
    if host {
        ExecutionMode::Host
    } else {
        ExecutionMode::Managed
    }
}

/// The mode a run reports: inside a managed environment it is always managed.
pub fn effective_execution_mode_when(requested: ExecutionMode, managed: bool) -> (r: ExecutionMode)
    ensures
        r == (if managed { ExecutionMode::Managed } else { requested }),
{
    if managed {
        ExecutionMode::Managed
    } else {
        requested
    }
}

pub open spec fn spec_execution_mode_name(mode: ExecutionMode) -> Seq<char> {
    match mode {
        ExecutionMode::Managed => "managed"@,
        ExecutionMode::Host => "host"@,
    }
}

pub fn execution_mode_name(mode: ExecutionMode) -> (r: &'static str)
    ensures
        r@ == spec_execution_mode_name(mode),
{
    match mode {
        ExecutionMode::Managed => "managed",
        ExecutionMode::Host => "host",
    }
}

/// The inverse of `execution_mode_name`; any other name is read as host.
pub fn mode_from_name(name: &str) -> (r: ExecutionMode)
    ensures
        r == (if name@ == "managed"@ { ExecutionMode::Managed } else { ExecutionMode::Host }),
{
    if crate::text::str_eq(name, "managed") {
        ExecutionMode::Managed
    } else {
        ExecutionMode::Host
    }
}

/// Requested report format.
#[derive(Clone, Copy, Debug, PartialEq, Eq, Structural)]
pub enum OutputFormat {
    Human,
    Json,
    Markdown,
}

pub open spec fn spec_output_name(output: OutputFormat) -> Seq<char> {
    match output {
        OutputFormat::Human => "human"@,
        OutputFormat::Json => "json"@,
        OutputFormat::Markdown => "markdown"@,
    }
}

/// The name of a format on the command line.
pub fn output_name(output: OutputFormat) -> (r: &'static str)
    ensures
        r@ == spec_output_name(output),
{
    match output {
        OutputFormat::Human => "human",
        OutputFormat::Json => "json",
        OutputFormat::Markdown => "markdown",
    }
}

/// Output target of a full repository check.
#[derive(Clone, Copy, Debug, PartialEq, Eq, Structural)]
pub enum OutputArg {
    Stdout,
    Md,
    Json,
}

impl OutputArg {
    pub open spec fn spec_name(self) -> Seq<char> {
        match self {
            OutputArg::Stdout => "stdout"@,
            OutputArg::Md => "md"@,
            OutputArg::Json => "json"@,
        }
    }

    pub fn as_str(&self) -> (r: &'static str)
        ensures
            r@ == self.spec_name(),
    {
        match self {
            OutputArg::Stdout => "stdout",
            OutputArg::Md => "md",
            OutputArg::Json => "json",
        }
    }
}

/// The output target that a report format writes to.
pub fn output_arg(output: OutputFormat) -> (r: OutputArg)
    ensures
        r == (match output {
            OutputFormat::Human => OutputArg::Stdout,
            OutputFormat::Json => OutputArg::Json,
            OutputFormat::Markdown => OutputArg::Md,
        }),
{
    match output {
        OutputFormat::Human => OutputArg::Stdout,
        OutputFormat::Json => OutputArg::Json,
        OutputFormat::Markdown => OutputArg::Md,
    }
}


/// Whether a policy's checks enable a signal.
pub open spec fn spec_signal_enabled(checks: Checks, kind: SignalKind) -> bool {
    match kind {
        SignalKind::Test => checks.test,
        SignalKind::Coverage => checks.coverage,
        SignalKind::Size => checks.size,
        SignalKind::Complexity => checks.complexity,
        SignalKind::Deps => checks.deps,
        SignalKind::Mutation => checks.mutation,
    }
}

pub fn signal_enabled(checks: &Checks, kind: SignalKind) -> (r: bool)
    ensures
        r == spec_signal_enabled(*checks, kind),
{
    match kind {
        SignalKind::Test => checks.test,
        SignalKind::Coverage => checks.coverage,
        SignalKind::Size => checks.size,
        SignalKind::Complexity => checks.complexity,
        SignalKind::Deps => checks.deps,
        SignalKind::Mutation => checks.mutation,
    }
}

/// The signals in their canonical order.
pub open spec fn spec_all_signals() -> Seq<SignalKind> {
    seq![
        SignalKind::Test,
        SignalKind::Coverage,
        SignalKind::Size,
        SignalKind::Complexity,
        SignalKind::Deps,
        SignalKind::Mutation,
    ]
}

/// The enabled signals are the canonical list of signals, filtered by the
/// policy's checks: each enabled signal once, in canonical order.
pub proof fn law_enabled_signals_in_canonical_order(checks: Checks)
    ensures
        spec_enabled_signal_kinds(checks) == spec_all_signals().filter(
            |k: SignalKind| spec_signal_enabled(checks, k),
        ),
{
    let all = spec_all_signals();
    let pred = |k: SignalKind| spec_signal_enabled(checks, k);
    reveal_with_fuel(Seq::<_>::filter, 7);
    assert(all.drop_last().drop_last().drop_last().drop_last().drop_last().drop_last() =~= Seq::<SignalKind>::empty());
    assert(spec_enabled_signal_kinds(checks) =~= all.filter(pred));
}

} // verus!
