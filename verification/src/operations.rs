//! The typed operations of the command line, the errors they end in, and
//! how a managed run is launched and answered.
use crate::text::{chars_of, chars_replace, string_from_chars, string_views};
use crate::vocabulary::{
    output_name, signal_kind_slug, spec_output_name, spec_signal_slug, ExecutionMode, Language,
    OutputFormat, SignalKind,
};
use vstd::prelude::*;

verus! {

broadcast use vstd::string::group_string_axioms;

/// Capabilities an operator grants to a managed run.
#[derive(Clone, Copy, Debug, PartialEq, Eq, Structural)]
pub struct CapabilityAuthorization {
    pub allow_network: bool,
    pub allow_docker_socket: bool,
}

impl Default for CapabilityAuthorization {
    fn default() -> (r: CapabilityAuthorization)
        ensures
            !r.allow_network,
            !r.allow_docker_socket,
    {
        CapabilityAuthorization { allow_network: false, allow_docker_socket: false }
    }
}

/// Docker access a repository's environment requests.
#[derive(Clone, Copy, Debug, PartialEq, Eq, Structural)]
pub enum DockerAccess {
    Disabled,
    Socket,
}

/// Network access a repository's environment requests.
#[derive(Clone, Copy, Debug, PartialEq, Eq, Structural)]
pub enum NetworkAccess {
    Disabled,
    Bridge,
}

/// What a locked environment requests.
#[derive(Clone, Copy, Debug, PartialEq, Eq, Structural)]
pub struct EnvironmentCapabilities {
    pub docker: DockerAccess,
    pub network: NetworkAccess,
}

/// The class of an error, which decides the process exit code.
#[derive(Clone, Copy, Debug, PartialEq, Eq, Structural)]
pub enum ApplicationErrorKind {
    InvalidInput,
    Environment,
    Execution,
}

/// An error that ends an operation.
#[derive(Debug, PartialEq, Eq)]
pub struct ApplicationError {
    pub kind: ApplicationErrorKind,
    pub message: String,
}

pub open spec fn spec_exit_code(kind: ApplicationErrorKind) -> u8 {
    match kind {
        ApplicationErrorKind::InvalidInput => 2,
        ApplicationErrorKind::Environment => 3,
        ApplicationErrorKind::Execution => 4,
    }
}

impl ApplicationError {
    pub fn input(message: String) -> (r: ApplicationError)
        ensures
            r.kind == ApplicationErrorKind::InvalidInput,
            r.message == message,
    {
        ApplicationError { kind: ApplicationErrorKind::InvalidInput, message }
    }

    pub fn environment(message: String) -> (r: ApplicationError)
        ensures
            r.kind == ApplicationErrorKind::Environment,
            r.message == message,
    {
        ApplicationError { kind: ApplicationErrorKind::Environment, message }
    }

    pub fn execution(message: String) -> (r: ApplicationError)
        ensures
            r.kind == ApplicationErrorKind::Execution,
            r.message == message,
    {
        ApplicationError { kind: ApplicationErrorKind::Execution, message }
    }

    /// Invalid input exits with 2, an environment problem with 3, an
    /// execution problem with 4.
    pub fn exit_code(&self) -> (r: u8)
        ensures
            r == spec_exit_code(self.kind),
    {
        match self.kind {
            ApplicationErrorKind::InvalidInput => 2,
            ApplicationErrorKind::Environment => 3,
            ApplicationErrorKind::Execution => 4,
        }
    }
}

/// How a quality run ended.
#[derive(Clone, Copy, Debug, PartialEq, Eq, Structural)]
pub enum RunOutcome {
    Passed,
    QualityFailed,
    ExecutionIncomplete,
}

/// A passing run exits with 0, a quality failure with 1, an incomplete run
/// with 4.
pub open spec fn spec_outcome_exit_code(outcome: RunOutcome) -> u8 {
    match outcome {
        RunOutcome::Passed => 0u8,
        RunOutcome::QualityFailed => 1u8,
        RunOutcome::ExecutionIncomplete => 4u8,
    }
}

pub fn outcome_exit_code(outcome: RunOutcome) -> (r: u8)
    ensures
        r == spec_outcome_exit_code(outcome),
{
    match outcome {
        RunOutcome::Passed => 0,
        RunOutcome::QualityFailed => 1,
        RunOutcome::ExecutionIncomplete => 4,
    }
}

/// A full check of the repository.
pub struct CheckOperation {
    pub config: String,
    pub output: OutputFormat,
    pub execution_mode: ExecutionMode,
    pub debug: bool,
    pub authorization: CapabilityAuthorization,
}

/// A focused re-run of one signal.
pub struct VerifyOperation {
    pub signal: SignalKind,
    pub config: String,
    pub language: Option<Language>,
    pub root: Option<String>,
    pub file: Option<String>,
    pub package: Option<String>,
    pub name: Option<String>,
    pub output: OutputFormat,
    pub execution_mode: ExecutionMode,
    pub debug: bool,
    pub authorization: CapabilityAuthorization,
}

/// The impact of the changes since a base revision.
pub struct ImpactOperation {
    pub config: String,
    pub base: String,
    pub output: OutputFormat,
    pub execution_mode: ExecutionMode,
    pub debug: bool,
    pub authorization: CapabilityAuthorization,
    /// The immutable impact plan a host process hands to a managed run.
    pub managed_handoff: Option<String>,
    /// Where a managed run leaves its provisional result.
    pub managed_result: Option<String>,
}

pub open spec fn debug_flag(debug: bool) -> Seq<Seq<char>> {
    if debug {
        seq!["--debug"@]
    } else {
        seq![]
    }
}

pub open spec fn optional_flag(flag: Seq<char>, value: Option<String>) -> Seq<Seq<char>> {
    match value {
        Some(v) => seq![flag, v@],
        None => seq![],
    }
}

fn push_str(v: &mut Vec<String>, s: &str)
    ensures
        string_views(final(v)@) == string_views(old(v)@).push(s@),
{
    let ghost before = v@;
    v.push(String::from_str(s));
    assert(string_views(v@) =~= string_views(before).push(s@));
}

fn push_flag(v: &mut Vec<String>, flag: &str, value: &Option<String>)
    ensures
        string_views(final(v)@) == string_views(old(v)@) + optional_flag(flag@, *value),
{
    match value {
        Some(s) => {
            push_str(v, flag);
            push_str(v, s.as_str());
            assert(string_views(v@) =~= string_views(old(v)@) + optional_flag(flag@, *value));
        },
        None => {
            assert(string_views(v@) =~= string_views(old(v)@) + optional_flag(flag@, *value));
        },
    }
}

/// The command a managed environment runs for an impact request: the same
/// request, on the host inside it, with the contract at its container path.
pub fn managed_impact_command(operation: &ImpactOperation, container_config: String) -> (r: Vec<String>)
    ensures
        string_views(r@) == seq![
            "impact"@,
            "run"@,
            "--host"@,
            "--base"@,
            operation.base@,
            "--config"@,
            container_config@,
            "--output"@,
            spec_output_name(operation.output),
        ] + debug_flag(operation.debug),
{
    let mut command: Vec<String> = Vec::new();
    push_str(&mut command, "impact");
    push_str(&mut command, "run");
    push_str(&mut command, "--host");
    push_str(&mut command, "--base");
    push_str(&mut command, operation.base.as_str());
    push_str(&mut command, "--config");
    push_str(&mut command, container_config.as_str());
    push_str(&mut command, "--output");
    push_str(&mut command, output_name(operation.output));
    if operation.debug {
        push_str(&mut command, "--debug");
    }
    assert(string_views(command@) =~= seq![
        "impact"@,
        "run"@,
        "--host"@,
        "--base"@,
        operation.base@,
        "--config"@,
        container_config@,
        "--output"@,
        spec_output_name(operation.output),
    ] + debug_flag(operation.debug));
    command
}

/// The command a managed environment runs for a focused verification.
pub fn managed_verify_command(operation: &VerifyOperation, container_config: String) -> (r: Vec<String>)
    ensures
        string_views(r@) == seq![
            "verify"@,
            spec_signal_slug(operation.signal),
            "--host"@,
            "--config"@,
            container_config@,
            "--output"@,
            spec_output_name(operation.output),
        ] + (match operation.language {
            Some(l) => seq!["--language"@, l.spec_name()],
            None => seq![],
        }) + optional_flag("--root"@, operation.root) + optional_flag("--file"@, operation.file)
            + optional_flag("--package"@, operation.package) + optional_flag("--name"@, operation.name)
            + debug_flag(operation.debug),
{
    let mut command: Vec<String> = Vec::new();
    push_str(&mut command, "verify");
    push_str(&mut command, signal_kind_slug(operation.signal));
    push_str(&mut command, "--host");
    push_str(&mut command, "--config");
    push_str(&mut command, container_config.as_str());
    push_str(&mut command, "--output");
    push_str(&mut command, output_name(operation.output));
    let ghost head = string_views(command@);
    match operation.language {
        Some(l) => {
            push_str(&mut command, "--language");
            push_str(&mut command, l.as_str());
        },
        None => {},
    }
    let ghost with_language = string_views(command@);
    assert(with_language =~= head + (match operation.language {
        Some(l) => seq!["--language"@, l.spec_name()],
        None => seq![],
    }));
    push_flag(&mut command, "--root", &operation.root);
    push_flag(&mut command, "--file", &operation.file);
    push_flag(&mut command, "--package", &operation.package);
    push_flag(&mut command, "--name", &operation.name);
    let ghost before_debug = string_views(command@);
    if operation.debug {
        push_str(&mut command, "--debug");
    }
    assert(string_views(command@) =~= before_debug + debug_flag(operation.debug));
    command
}

/// The command a managed environment runs for a full check.
pub fn managed_check_command(operation: &CheckOperation, container_config: String) -> (r: Vec<String>)
    ensures
        string_views(r@) == seq![
            "check"@,
            "--host"@,
            "--config"@,
            container_config@,
            "--output"@,
            spec_output_name(operation.output),
        ] + debug_flag(operation.debug),
{
    let mut command: Vec<String> = Vec::new();
    push_str(&mut command, "check");
    push_str(&mut command, "--host");
    push_str(&mut command, "--config");
    push_str(&mut command, container_config.as_str());
    push_str(&mut command, "--output");
    push_str(&mut command, output_name(operation.output));
    let ghost head = string_views(command@);
    if operation.debug {
        push_str(&mut command, "--debug");
    }
    assert(string_views(command@) =~= head + debug_flag(operation.debug));
    command
}

pub open spec fn network_refusal() -> Seq<char> {
    "the locked repository requests bridge networking; rerun with --allow-network only after reviewing the repository trust boundary"@
}

pub open spec fn docker_refusal() -> Seq<char> {
    "the locked repository requests host Docker-daemon access; rerun with --allow-docker-socket only for a trusted repository and daemon"@
}

/// A locked environment may use bridge networking or the Docker socket only
/// when the operator allowed it; networking is checked first.
pub fn authorize_capabilities(capabilities: EnvironmentCapabilities, authorization: CapabilityAuthorization) -> (r: Result<(), ApplicationError>)
    ensures
        (capabilities.network == NetworkAccess::Bridge && !authorization.allow_network) ==> (r matches Err(e)
            && e.kind == ApplicationErrorKind::Environment && e.message@ == network_refusal()),
        !(capabilities.network == NetworkAccess::Bridge && !authorization.allow_network) && (capabilities.docker
            == DockerAccess::Socket && !authorization.allow_docker_socket) ==> (r matches Err(e) && e.kind
            == ApplicationErrorKind::Environment && e.message@ == docker_refusal()),
        r is Ok <==> !(capabilities.network == NetworkAccess::Bridge && !authorization.allow_network) && !(
        capabilities.docker == DockerAccess::Socket && !authorization.allow_docker_socket),
{
    if capabilities.network == NetworkAccess::Bridge && !authorization.allow_network {
        return Err(
            ApplicationError::environment(
                String::from_str(
                    "the locked repository requests bridge networking; rerun with --allow-network only after reviewing the repository trust boundary",
                ),
            ),
        );
    }
    if capabilities.docker == DockerAccess::Socket && !authorization.allow_docker_socket {
        return Err(
            ApplicationError::environment(
                String::from_str(
                    "the locked repository requests host Docker-daemon access; rerun with --allow-docker-socket only for a trusted repository and daemon",
                ),
            ),
        );
    }
    Ok(())
}

/// The exit code of a managed quality run: its own code when it is one the
/// command line uses (0 to 4), else 4.
pub fn managed_quality_exit_code(code: i32) -> (r: u8)
    ensures
        0 <= code <= 4 ==> r == code,
        !(0 <= code <= 4) ==> r == 4,
{
    if 0 <= code && code <= 4 {
        code as u8
    } else {
        4
    }
}

/// The exit code of a command run in the managed environment: its own code
/// when it fits a process exit code, else 4.
pub fn launch_exit_code(code: i32) -> (r: u8)
    ensures
        0 <= code <= 255 ==> r == code,
        !(0 <= code <= 255) ==> r == 4,
{
    if 0 <= code && code <= 255 {
        code as u8
    } else {
        4
    }
}

/// The repository root of a contract path: its directory, or `.` when the
/// path has none.
pub fn config_repo_root(config: &str) -> (r: String)
    ensures
        r@ == (match crate::paths::parent_spec(config@) {
            Some(p) => if p.len() > 0 {
                p
            } else {
                "."@
            },
            None => "."@,
        }),
{
    match crate::paths::path_parent(config) {
        Some(p) => {
            if chars_of(p.as_str()).len() > 0 {
                p
            } else {
                String::from_str(".")
            }
        },
        None => String::from_str("."),
    }
}

/// The contract's path inside the container, from its repository-relative
/// path.
pub fn container_config_path(relative: &str) -> (r: String)
    ensures
        r@ == "./"@ + crate::text::replace_char(relative@, '\\', '/'),
{
    let v = chars_of(relative);
    let w = chars_replace(&v, '\\', '/');
    let mut out = String::from_str("./");
    let t = string_from_chars(&w);
    out.append(t.as_str());
    out
}

} // verus!
