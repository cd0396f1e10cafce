//! Settling a Rust target's runtime and tool requirements to exact
//! versions: what to ask `mise latest`, and what its answer makes of the
//! requirement.
use crate::git_changes::{utf8_error_text, utf8_text};
use crate::text::trim;
use crate::toolchain::{version_is, VersionClass, VersionRequirement};
use crate::versions::{is_exact_cargo_version, is_exact_rust_version, semver_version_parses, spec_is_exact_rust_version};
use vstd::prelude::*;
use vstd::utf8::{decode_utf8, valid_utf8};

verus! {

broadcast use vstd::string::group_string_axioms;

/// The `mise latest` query for the Rust runtime: none when the requirement
/// is already exact; an unresolved requirement cannot be resolved.
pub open spec fn spec_runtime_query(req: VersionRequirement) -> Result<Option<Seq<char>>, Seq<char>> {
    match req {
        VersionRequirement::Exact(_) => Ok(None),
        VersionRequirement::Selector(e) => Ok(Some("rust@"@ + e@)),
        VersionRequirement::Minimum(v) => Ok(Some("rust@"@ + v@)),
        VersionRequirement::Unresolved(reason) => Err("cannot resolve rust: "@ + reason@),
    }
}

fn concat(a: &str, b: &str) -> (r: String)
    ensures
        r@ == a@ + b@,
{
    let mut s = String::from_str(a);
    s.append(b);
    s
}

pub fn runtime_query(req: &VersionRequirement) -> (r: Result<Option<String>, String>)
    ensures
        match spec_runtime_query(*req) {
            Ok(None) => r matches Ok(None),
            Ok(Some(q)) => r matches Ok(Some(s)) && s@ == q,
            Err(m) => r matches Err(e) && e@ == m,
        },
{
    match req {
        VersionRequirement::Exact(_) => Ok(None),
        VersionRequirement::Selector(e) => Ok(Some(concat("rust@", e.as_str()))),
        VersionRequirement::Minimum(v) => Ok(Some(concat("rust@", v.as_str()))),
        VersionRequirement::Unresolved(reason) => Err(concat("cannot resolve rust: ", reason.as_str())),
    }
}

/// The `mise latest` query for a tool installed with `cargo install`: none
/// when the requirement is already exact; an unresolved requirement asks
/// for the latest release.
pub open spec fn spec_cargo_tool_query(name: Seq<char>, req: VersionRequirement) -> Option<Seq<char>> {
    match req {
        VersionRequirement::Exact(_) => None,
        VersionRequirement::Selector(e) => Some("cargo:"@ + name + "@"@ + e@),
        VersionRequirement::Minimum(v) => Some("cargo:"@ + name + "@"@ + v@),
        VersionRequirement::Unresolved(_) => Some("cargo:"@ + name),
    }
}

pub fn cargo_tool_query(name: &str, req: &VersionRequirement) -> (r: Option<String>)
    ensures
        match spec_cargo_tool_query(name@, *req) {
            None => r is None,
            Some(q) => r matches Some(s) && s@ == q,
        },
{
    match req {
        VersionRequirement::Exact(_) => None,
        VersionRequirement::Selector(e) => {
            let mut s = concat("cargo:", name);
            s.append("@");
            s.append(e.as_str());
            Some(s)
        },
        VersionRequirement::Minimum(v) => {
            let mut s = concat("cargo:", name);
            s.append("@");
            s.append(v.as_str());
            Some(s)
        },
        VersionRequirement::Unresolved(_) => Some(concat("cargo:", name)),
    }
}

/// The arguments of `mise` that ask for the latest version matching
/// `query`, ignoring the repository's configuration, environment and hooks.
pub fn mise_arguments(query: &str) -> (r: Vec<String>)
    ensures
        crate::text::string_views(r@) == seq!["--no-config"@, "--no-env"@, "--no-hooks"@, "latest"@, query@],
{
    let r = vec![
        String::from_str("--no-config"),
        String::from_str("--no-env"),
        String::from_str("--no-hooks"),
        String::from_str("latest"),
        String::from_str(query),
    ];
    assert(crate::text::string_views(r@) =~= seq!["--no-config"@, "--no-env"@, "--no-hooks"@, "latest"@, query@]);
    r
}

/// Which answers count as exact: a Rust toolchain (a numeric release or a
/// dated nightly or beta), or a Cargo package version (SemVer).
#[derive(Clone, Copy, Debug, PartialEq, Eq, Structural)]
pub enum ExactRule {
    RustToolchain,
    CargoPackage,
}

pub open spec fn rule_accepts(rule: ExactRule, v: Seq<char>) -> bool {
    match rule {
        ExactRule::RustToolchain => spec_is_exact_rust_version(v),
        ExactRule::CargoPackage => semver_version_parses(v),
    }
}

/// What a finished `mise latest` run for `name` makes of the requirement:
/// a failed run, output that is not UTF-8, or trimmed output that is not
/// an exact version is an error; otherwise that version, exactly.
pub open spec fn spec_mise_outcome(name: Seq<char>, query: Seq<char>, success: bool, stdout: Seq<u8>, rule: ExactRule) -> Result<Seq<char>, Seq<char>> {
    if !success {
        Err("mise could not resolve "@ + query)
    } else if !valid_utf8(stdout) {
        Err("mise returned non-UTF-8 output for "@ + name + ": "@ + utf8_error_text(stdout))
    } else {
        let v = trim(decode_utf8(stdout));
        if rule_accepts(rule, v) {
            Ok(v)
        } else {
            Err("mise did not return an exact version for "@ + query + ": "@ + v)
        }
    }
}

pub fn mise_outcome(name: &str, query: &str, success: bool, stdout: &[u8], rule: ExactRule) -> (r: Result<VersionRequirement, String>)
    ensures
        match spec_mise_outcome(name@, query@, success, stdout@, rule) {
            Ok(v) => r matches Ok(req) && version_is(req, VersionClass::Exact, v),
            Err(m) => r matches Err(e) && e@ == m,
        },
{
    if !success {
        return Err(concat("mise could not resolve ", query));
    }
    let text = match utf8_text(stdout) {
        Ok(text) => text,
        Err(cause) => {
            let mut m = concat("mise returned non-UTF-8 output for ", name);
            m.append(": ");
            m.append(cause.as_str());
            return Err(m);
        },
    };
    let chars = crate::text::chars_of(text);
    let (lo, hi) = crate::text::trim_bounds(&chars);
    let version = crate::text::string_from_range(&chars, lo, hi);
    let exact = match rule {
        ExactRule::RustToolchain => is_exact_rust_version(version.as_str()),
        ExactRule::CargoPackage => is_exact_cargo_version(version.as_str()),
    };
    if exact {
        Ok(VersionRequirement::Exact(version))
    } else {
        let mut m = concat("mise did not return an exact version for ", query);
        m.append(": ");
        m.append(version.as_str());
        Err(m)
    }
}

} // verus!
