//! The environment plan as `env show` prints it, the sources a lock hashes,
//! and the checks that keep a lock consistent with them.
use crate::operations::{DockerAccess, NetworkAccess};
use crate::selection::{insert_sorted, strictly_sorted};
use crate::text::{join, lines_text, str_eq, string_views, write_lines};
use crate::vocabulary::{Language, SignalKind};
use vstd::prelude::*;

verus! {

/// Where a requirement comes from: the kind of source, its path, and how
/// sure the reading is (as printed).
pub struct SourceText {
    pub kind: String,
    pub path: String,
    pub confidence: String,
}

/// A tool the repository pins, with its version as printed.
pub struct ToolText {
    pub tool: String,
    pub version: String,
    pub source: SourceText,
}

pub struct DebianPackageText {
    pub package: String,
    pub source: SourceText,
}

pub struct RuntimeText {
    pub runtime: String,
    pub version: String,
    pub source: SourceText,
    pub components: Vec<String>,
    pub targets: Vec<String>,
}

pub struct PackageManagerText {
    pub family: String,
    pub version: String,
    pub ownership_root: String,
    pub source: SourceText,
}

pub struct SignalToolText {
    pub tool: String,
    pub version: String,
    pub provider: String,
    pub scope: String,
    pub provisioning: String,
    pub modifies_checkout: bool,
    pub signals: Vec<SignalKind>,
    pub source: SourceText,
}

pub struct SystemRequirementText {
    pub kind: String,
    pub name: String,
    pub provisioning: String,
    pub source: SourceText,
}

pub struct DependencyLockText {
    pub path: String,
    pub digest: String,
    pub owner_root: String,
    pub source: SourceText,
}

/// What one target needs in the environment.
pub struct TargetText {
    pub language: Language,
    pub root: String,
    pub workspace: Option<String>,
    pub package: Option<String>,
    pub runtimes: Vec<RuntimeText>,
    pub package_manager: Option<PackageManagerText>,
    pub signal_tools: Vec<SignalToolText>,
    pub system_requirements: Vec<SystemRequirementText>,
    pub dependency_locks: Vec<DependencyLockText>,
}

pub struct PlatformText {
    pub os: String,
    pub architecture: String,
    pub libc: String,
}

pub struct DiagnosticText {
    pub code: String,
    pub message: String,
}

pub struct ConflictSourceText {
    pub kind: String,
    pub path: String,
    pub confidence: String,
    pub detail: Option<String>,
}

pub struct ConflictText {
    pub code: String,
    pub message: String,
    pub sources: Vec<ConflictSourceText>,
}

/// An environment plan, with every value that is printed through `Debug`
/// already written out.
pub struct EnvironmentPlanText {
    pub name: String,
    pub contract_digest: String,
    pub platforms: Vec<PlatformText>,
    pub tools: Vec<ToolText>,
    pub debian_packages: Vec<DebianPackageText>,
    pub docker: DockerAccess,
    pub network: NetworkAccess,
    pub targets: Vec<TargetText>,
    pub warnings: Vec<DiagnosticText>,
    pub conflicts: Vec<ConflictText>,
}

/// `[kind path confidence]`.
pub open spec fn source_suffix(s: SourceText) -> Seq<char> {
    " ["@ + s.kind@ + " "@ + s.path@ + " "@ + s.confidence@ + "]"@
}

fn push_source_suffix(out: &mut String, s: &SourceText)
    ensures
        final(out)@ == old(out)@ + source_suffix(*s),
{
    out.append(" [");
    out.append(s.kind.as_str());
    out.append(" ");
    out.append(s.path.as_str());
    out.append(" ");
    out.append(s.confidence.as_str());
    out.append("]");
}

pub open spec fn signal_name(kind: SignalKind) -> Seq<char> {
    match kind {
        SignalKind::Test => "Test"@,
        SignalKind::Coverage => "Coverage"@,
        SignalKind::Size => "Size"@,
        SignalKind::Complexity => "Complexity"@,
        SignalKind::Deps => "Deps"@,
        SignalKind::Mutation => "Mutation"@,
    }
}

/// A signal list as `Debug` prints it: `[Test, Size]`.
pub open spec fn signal_list(kinds: Seq<SignalKind>) -> Seq<char> {
    "["@ + join(kinds.map_values(|k: SignalKind| signal_name(k)), ", "@) + "]"@
}

fn signal_name_of(kind: SignalKind) -> (r: &'static str)
    ensures
        r@ == signal_name(kind),
{
    match kind {
        SignalKind::Test => "Test",
        SignalKind::Coverage => "Coverage",
        SignalKind::Size => "Size",
        SignalKind::Complexity => "Complexity",
        SignalKind::Deps => "Deps",
        SignalKind::Mutation => "Mutation",
    }
}

fn push_signal_list(out: &mut String, kinds: &Vec<SignalKind>)
    ensures
        final(out)@ == old(out)@ + signal_list(kinds@),
{
    let ghost names = kinds@.map_values(|k: SignalKind| signal_name(k));
    let ghost start = old(out)@;
    out.append("[");
    let mut i: usize = 0;
    while i < kinds.len()
        invariant
            i <= kinds@.len(),
            names == kinds@.map_values(|k: SignalKind| signal_name(k)),
            out@ == start + "["@ + join(names.take(i as int), ", "@),
        decreases kinds@.len() - i,
    {
        if i > 0 {
            out.append(", ");
        }
        out.append(signal_name_of(kinds[i]));
        proof {
            let t = names.take(i + 1);
            assert(t.drop_last() =~= names.take(i as int));
            if i == 0 {
                assert(join(names.take(0), ", "@) =~= Seq::<char>::empty());
            }
            assert(out@ =~= start + "["@ + join(t, ", "@));
        }
        i = i + 1;
    }
    out.append("]");
    assert(names.take(kinds@.len() as int) =~= names);
}

pub open spec fn docker_name(d: DockerAccess) -> Seq<char> {
    match d {
        DockerAccess::Disabled => "Disabled"@,
        DockerAccess::Socket => "Socket"@,
    }
}

pub open spec fn network_name(n: NetworkAccess) -> Seq<char> {
    match n {
        NetworkAccess::Disabled => "Disabled"@,
        NetworkAccess::Bridge => "Bridge"@,
    }
}

pub open spec fn platform_lines(ps: Seq<PlatformText>) -> Seq<Seq<char>> {
    seq!["platforms:"@] + ps.map_values(|p: PlatformText| "  - "@ + p.os@ + "/"@ + p.architecture@ + "/"@ + p.libc@)
}

pub open spec fn tool_lines(ts: Seq<ToolText>) -> Seq<Seq<char>> {
    if ts.len() == 0 {
        seq![]
    } else {
        seq!["repository tools:"@] + ts.map_values(
            |t: ToolText| "  - "@ + t.tool@ + " "@ + t.version@ + source_suffix(t.source),
        )
    }
}

pub open spec fn debian_lines(ps: Seq<DebianPackageText>) -> Seq<Seq<char>> {
    if ps.len() == 0 {
        seq![]
    } else {
        seq!["Debian packages:"@] + ps.map_values(|p: DebianPackageText| "  - "@ + p.package@)
    }
}

pub open spec fn capability_lines(docker: DockerAccess, network: NetworkAccess) -> Seq<Seq<char>> {
    seq!["runtime capabilities: docker="@ + docker_name(docker) + " network="@ + network_name(network)] + if docker
        == DockerAccess::Socket {
        seq!["  warning: Docker socket access grants the environment control over the host Docker daemon"@]
    } else {
        seq![]
    }
}

pub open spec fn context_lines(t: TargetText) -> Seq<Seq<char>> {
    (match t.workspace {
        Some(w) => seq!["    workspace: "@ + w@],
        None => seq![],
    }) + match t.package {
        Some(p) => seq!["    package: "@ + p@],
        None => seq![],
    }
}

pub open spec fn runtime_lines(rs: Seq<RuntimeText>) -> Seq<Seq<char>>
    decreases rs.len(),
{
    if rs.len() == 0 {
        seq![]
    } else {
        let r = rs.last();
        runtime_lines(rs.drop_last()) + seq!["    runtime: "@ + r.runtime@ + " "@ + r.version@ + source_suffix(r.source)]
            + (if r.components@.len() == 0 {
            seq![]
        } else {
            seq!["      components: "@ + join(string_views(r.components@), ", "@)]
        }) + if r.targets@.len() == 0 {
            seq![]
        } else {
            seq!["      targets: "@ + join(string_views(r.targets@), ", "@)]
        }
    }
}

pub open spec fn manager_lines(m: Option<PackageManagerText>) -> Seq<Seq<char>> {
    match m {
        Some(m) => seq![
            "    package manager: "@ + m.family@ + " "@ + m.version@ + " owner="@ + m.ownership_root@
                + source_suffix(m.source),
        ],
        None => seq![],
    }
}

pub open spec fn bool_text(b: bool) -> Seq<char> {
    if b {
        "true"@
    } else {
        "false"@
    }
}

pub open spec fn signal_tool_line(t: SignalToolText) -> Seq<char> {
    "    tool: "@ + t.tool@ + " "@ + t.version@ + " provider="@ + t.provider@ + " scope="@ + t.scope@
        + " provisioning="@ + t.provisioning@ + " modifies_checkout="@ + bool_text(t.modifies_checkout)
        + " signals="@ + signal_list(t.signals@) + source_suffix(t.source)
}

pub open spec fn system_line(s: SystemRequirementText) -> Seq<char> {
    "    system: "@ + s.kind@ + " "@ + s.name@ + " provisioning="@ + s.provisioning@ + source_suffix(s.source)
}

pub open spec fn lock_line(l: DependencyLockText) -> Seq<char> {
    "    dependency lock: "@ + l.path@ + " "@ + l.digest@ + " owner="@ + l.owner_root@ + source_suffix(l.source)
}

/// What a target needs: its runtimes (with components and targets), its
/// package manager, its signal tools, its system requirements and its
/// dependency locks, one line each.
pub open spec fn requirement_lines(t: TargetText) -> Seq<Seq<char>> {
    runtime_lines(t.runtimes@) + manager_lines(t.package_manager) + t.signal_tools@.map_values(
        |s: SignalToolText| signal_tool_line(s),
    ) + t.system_requirements@.map_values(|s: SystemRequirementText| system_line(s))
        + t.dependency_locks@.map_values(|l: DependencyLockText| lock_line(l))
}

pub open spec fn target_lines(ts: Seq<TargetText>) -> Seq<Seq<char>>
    decreases ts.len(),
{
    if ts.len() == 0 {
        seq![]
    } else {
        let t = ts.last();
        target_lines(ts.drop_last()) + seq!["  - "@ + t.language.spec_name() + ":"@ + t.root@] + context_lines(t)
            + requirement_lines(t)
    }
}

pub open spec fn conflict_source_line(s: ConflictSourceText) -> Seq<char> {
    "      source: "@ + s.kind@ + " "@ + s.path@ + " "@ + s.confidence@ + match s.detail {
        Some(d) => " ("@ + d@ + ")"@,
        None => ""@,
    }
}

pub open spec fn conflict_lines(cs: Seq<ConflictText>) -> Seq<Seq<char>>
    decreases cs.len(),
{
    if cs.len() == 0 {
        seq![]
    } else {
        let c = cs.last();
        conflict_lines(cs.drop_last()) + seq!["  - "@ + c.code@ + ": "@ + c.message@] + c.sources@.map_values(
            |s: ConflictSourceText| conflict_source_line(s),
        )
    }
}

pub open spec fn diagnostic_lines(warnings: Seq<DiagnosticText>, conflicts: Seq<ConflictText>) -> Seq<Seq<char>> {
    (if warnings.len() == 0 {
        seq![]
    } else {
        seq!["warnings:"@] + warnings.map_values(|w: DiagnosticText| "  - "@ + w.code@ + ": "@ + w.message@)
    }) + if conflicts.len() == 0 {
        seq![]
    } else {
        seq!["conflicts:"@] + conflict_lines(conflicts)
    }
}

/// The lines of `env show`: the repository and contract digest, then the
/// platforms, repository tools, Debian packages, runtime capabilities,
/// targets and diagnostics.
pub open spec fn plan_lines(p: EnvironmentPlanText) -> Seq<Seq<char>> {
    seq!["environment plan "@ + p.name@, "contract digest: "@ + p.contract_digest@] + platform_lines(p.platforms@)
        + tool_lines(p.tools@) + debian_lines(p.debian_packages@) + capability_lines(p.docker, p.network)
        + seq!["targets:"@] + target_lines(p.targets@) + diagnostic_lines(p.warnings@, p.conflicts@)
}

fn push_line(ls: &mut Vec<String>, s: String)
    ensures
        string_views(final(ls)@) == string_views(old(ls)@).push(s@),
{
    let ghost before = ls@;
    ls.push(s);
    assert(string_views(ls@) =~= string_views(before).push(s@));
}

/// `items` joined by `, `.
fn joined(items: &Vec<String>) -> (r: String)
    ensures
        r@ == join(string_views(items@), ", "@),
{
    crate::install::join_strings(items, ", ")
}

fn push_platforms(ls: &mut Vec<String>, ps: &Vec<PlatformText>)
    ensures
        string_views(final(ls)@) == string_views(old(ls)@) + platform_lines(ps@),
{
    push_line(ls, String::from_str("platforms:"));
    let ghost base = string_views(ls@);
    let mut i: usize = 0;
    while i < ps.len()
        invariant
            i <= ps@.len(),
            string_views(ls@) == base + ps@.take(i as int).map_values(
                |p: PlatformText| "  - "@ + p.os@ + "/"@ + p.architecture@ + "/"@ + p.libc@,
            ),
        decreases ps@.len() - i,
    {
        let p = &ps[i];
        let mut line = String::from_str("  - ");
        line.append(p.os.as_str());
        line.append("/");
        line.append(p.architecture.as_str());
        line.append("/");
        line.append(p.libc.as_str());
        push_line(ls, line);
        assert(ps@.take(i + 1).map_values(|p: PlatformText| "  - "@ + p.os@ + "/"@ + p.architecture@ + "/"@ + p.libc@)
            =~= ps@.take(i as int).map_values(
            |p: PlatformText| "  - "@ + p.os@ + "/"@ + p.architecture@ + "/"@ + p.libc@,
        ).push(line@));
        i = i + 1;
    }
    assert(ps@.take(ps@.len() as int) =~= ps@);
}

fn push_tools(ls: &mut Vec<String>, ts: &Vec<ToolText>)
    ensures
        string_views(final(ls)@) == string_views(old(ls)@) + tool_lines(ts@),
{
    if ts.len() == 0 {
        assert(string_views(ls@) =~= string_views(old(ls)@) + tool_lines(ts@));
        return;
    }
    push_line(ls, String::from_str("repository tools:"));
    let ghost base = string_views(ls@);
    let mut i: usize = 0;
    while i < ts.len()
        invariant
            i <= ts@.len(),
            string_views(ls@) == base + ts@.take(i as int).map_values(
                |t: ToolText| "  - "@ + t.tool@ + " "@ + t.version@ + source_suffix(t.source),
            ),
        decreases ts@.len() - i,
    {
        let t = &ts[i];
        let mut line = String::from_str("  - ");
        line.append(t.tool.as_str());
        line.append(" ");
        line.append(t.version.as_str());
        push_source_suffix(&mut line, &t.source);
        push_line(ls, line);
        assert(ts@.take(i + 1).map_values(|t: ToolText| "  - "@ + t.tool@ + " "@ + t.version@ + source_suffix(t.source))
            =~= ts@.take(i as int).map_values(
            |t: ToolText| "  - "@ + t.tool@ + " "@ + t.version@ + source_suffix(t.source),
        ).push(line@));
        i = i + 1;
    }
    assert(ts@.take(ts@.len() as int) =~= ts@);
}

fn push_debian(ls: &mut Vec<String>, ps: &Vec<DebianPackageText>)
    ensures
        string_views(final(ls)@) == string_views(old(ls)@) + debian_lines(ps@),
{
    if ps.len() == 0 {
        assert(string_views(ls@) =~= string_views(old(ls)@) + debian_lines(ps@));
        return;
    }
    push_line(ls, String::from_str("Debian packages:"));
    let ghost base = string_views(ls@);
    let mut i: usize = 0;
    while i < ps.len()
        invariant
            i <= ps@.len(),
            string_views(ls@) == base + ps@.take(i as int).map_values(|p: DebianPackageText| "  - "@ + p.package@),
        decreases ps@.len() - i,
    {
        let mut line = String::from_str("  - ");
        line.append(ps[i].package.as_str());
        push_line(ls, line);
        assert(ps@.take(i + 1).map_values(|p: DebianPackageText| "  - "@ + p.package@) =~= ps@.take(
            i as int,
        ).map_values(|p: DebianPackageText| "  - "@ + p.package@).push(line@));
        i = i + 1;
    }
    assert(ps@.take(ps@.len() as int) =~= ps@);
}

fn push_capabilities(ls: &mut Vec<String>, docker: DockerAccess, network: NetworkAccess)
    ensures
        string_views(final(ls)@) == string_views(old(ls)@) + capability_lines(docker, network),
{
    let mut line = String::from_str("runtime capabilities: docker=");
    line.append(
        match docker {
            DockerAccess::Disabled => "Disabled",
            DockerAccess::Socket => "Socket",
        },
    );
    line.append(" network=");
    line.append(
        match network {
            NetworkAccess::Disabled => "Disabled",
            NetworkAccess::Bridge => "Bridge",
        },
    );
    push_line(ls, line);
    let socket = match docker {
        DockerAccess::Socket => true,
        DockerAccess::Disabled => false,
    };
    if socket {
        push_line(
            ls,
            String::from_str(
                "  warning: Docker socket access grants the environment control over the host Docker daemon",
            ),
        );
    }
    assert(string_views(ls@) =~= string_views(old(ls)@) + capability_lines(docker, network));
}

fn push_runtimes(ls: &mut Vec<String>, rs: &Vec<RuntimeText>)
    ensures
        string_views(final(ls)@) == string_views(old(ls)@) + runtime_lines(rs@),
{
    let ghost base = string_views(ls@);
    let mut i: usize = 0;
    while i < rs.len()
        invariant
            i <= rs@.len(),
            string_views(ls@) == base + runtime_lines(rs@.take(i as int)),
        decreases rs@.len() - i,
    {
        let r = &rs[i];
        let ghost before = string_views(ls@);
        let mut line = String::from_str("    runtime: ");
        line.append(r.runtime.as_str());
        line.append(" ");
        line.append(r.version.as_str());
        push_source_suffix(&mut line, &r.source);
        push_line(ls, line);
        if r.components.len() > 0 {
            let mut c = String::from_str("      components: ");
            c.append(joined(&r.components).as_str());
            push_line(ls, c);
        }
        if r.targets.len() > 0 {
            let mut t = String::from_str("      targets: ");
            t.append(joined(&r.targets).as_str());
            push_line(ls, t);
        }
        proof {
            assert(rs@.take(i + 1).drop_last() =~= rs@.take(i as int));
            assert(rs@.take(i + 1).last() == rs@[i as int]);
        }
        assert(string_views(ls@) =~= base + runtime_lines(rs@.take(i + 1)));
        i = i + 1;
    }
    assert(rs@.take(rs@.len() as int) =~= rs@);
}

fn signal_tool_text(t: &SignalToolText) -> (r: String)
    ensures
        r@ == signal_tool_line(*t),
{
    let mut line = String::from_str("    tool: ");
    line.append(t.tool.as_str());
    line.append(" ");
    line.append(t.version.as_str());
    line.append(" provider=");
    line.append(t.provider.as_str());
    line.append(" scope=");
    line.append(t.scope.as_str());
    line.append(" provisioning=");
    line.append(t.provisioning.as_str());
    line.append(" modifies_checkout=");
    line.append(
        if t.modifies_checkout {
            "true"
        } else {
            "false"
        },
    );
    line.append(" signals=");
    push_signal_list(&mut line, &t.signals);
    push_source_suffix(&mut line, &t.source);
    line
}

fn system_text(s: &SystemRequirementText) -> (r: String)
    ensures
        r@ == system_line(*s),
{
    let mut line = String::from_str("    system: ");
    line.append(s.kind.as_str());
    line.append(" ");
    line.append(s.name.as_str());
    line.append(" provisioning=");
    line.append(s.provisioning.as_str());
    push_source_suffix(&mut line, &s.source);
    line
}

fn lock_text(l: &DependencyLockText) -> (r: String)
    ensures
        r@ == lock_line(*l),
{
    let mut line = String::from_str("    dependency lock: ");
    line.append(l.path.as_str());
    line.append(" ");
    line.append(l.digest.as_str());
    line.append(" owner=");
    line.append(l.owner_root.as_str());
    push_source_suffix(&mut line, &l.source);
    line
}

/// Appends the requirement lines of a target (see `requirement_lines`).
pub fn render_target_requirements(ls: &mut Vec<String>, target: &TargetText)
    ensures
        string_views(final(ls)@) == string_views(old(ls)@) + requirement_lines(*target),
{
    push_runtimes(ls, &target.runtimes);
    match &target.package_manager {
        Some(m) => {
            let mut line = String::from_str("    package manager: ");
            line.append(m.family.as_str());
            line.append(" ");
            line.append(m.version.as_str());
            line.append(" owner=");
            line.append(m.ownership_root.as_str());
            push_source_suffix(&mut line, &m.source);
            push_line(ls, line);
        },
        None => {},
    }
    let ghost after_manager = string_views(ls@);
    let tools = &target.signal_tools;
    let mut i: usize = 0;
    while i < tools.len()
        invariant
            i <= tools@.len(),
            string_views(ls@) == after_manager + tools@.take(i as int).map_values(
                |s: SignalToolText| signal_tool_line(s),
            ),
        decreases tools@.len() - i,
    {
        let line = signal_tool_text(&tools[i]);
        push_line(ls, line);
        assert(tools@.take(i + 1).map_values(|s: SignalToolText| signal_tool_line(s)) =~= tools@.take(
            i as int,
        ).map_values(|s: SignalToolText| signal_tool_line(s)).push(line@));
        i = i + 1;
    }
    assert(tools@.take(tools@.len() as int) =~= tools@);
    let ghost after_tools = string_views(ls@);
    let systems = &target.system_requirements;
    let mut j: usize = 0;
    while j < systems.len()
        invariant
            j <= systems@.len(),
            string_views(ls@) == after_tools + systems@.take(j as int).map_values(
                |s: SystemRequirementText| system_line(s),
            ),
        decreases systems@.len() - j,
    {
        let line = system_text(&systems[j]);
        push_line(ls, line);
        assert(systems@.take(j + 1).map_values(|s: SystemRequirementText| system_line(s)) =~= systems@.take(
            j as int,
        ).map_values(|s: SystemRequirementText| system_line(s)).push(line@));
        j = j + 1;
    }
    assert(systems@.take(systems@.len() as int) =~= systems@);
    let ghost after_systems = string_views(ls@);
    let locks = &target.dependency_locks;
    let mut k: usize = 0;
    while k < locks.len()
        invariant
            k <= locks@.len(),
            string_views(ls@) == after_systems + locks@.take(k as int).map_values(
                |l: DependencyLockText| lock_line(l),
            ),
        decreases locks@.len() - k,
    {
        let line = lock_text(&locks[k]);
        push_line(ls, line);
        assert(locks@.take(k + 1).map_values(|l: DependencyLockText| lock_line(l)) =~= locks@.take(
            k as int,
        ).map_values(|l: DependencyLockText| lock_line(l)).push(line@));
        k = k + 1;
    }
    assert(locks@.take(locks@.len() as int) =~= locks@);
    assert(string_views(ls@) =~= string_views(old(ls)@) + requirement_lines(*target));
}

fn push_targets(ls: &mut Vec<String>, ts: &Vec<TargetText>)
    ensures
        string_views(final(ls)@) == string_views(old(ls)@) + target_lines(ts@),
{
    let ghost base = string_views(ls@);
    let mut i: usize = 0;
    while i < ts.len()
        invariant
            i <= ts@.len(),
            string_views(ls@) == base + target_lines(ts@.take(i as int)),
        decreases ts@.len() - i,
    {
        let t = &ts[i];
        let ghost before = string_views(ls@);
        let mut head = String::from_str("  - ");
        head.append(t.language.as_str());
        head.append(":");
        head.append(t.root.as_str());
        push_line(ls, head);
        match &t.workspace {
            Some(w) => {
                let mut line = String::from_str("    workspace: ");
                line.append(w.as_str());
                push_line(ls, line);
            },
            None => {},
        }
        match &t.package {
            Some(p) => {
                let mut line = String::from_str("    package: ");
                line.append(p.as_str());
                push_line(ls, line);
            },
            None => {},
        }
        let ghost mid = string_views(ls@);
        assert(mid =~= before.push(head@) + context_lines(*t));
        render_target_requirements(ls, t);
        proof {
            assert(ts@.take(i + 1).drop_last() =~= ts@.take(i as int));
            assert(ts@.take(i + 1).last() == ts@[i as int]);
        }
        assert(string_views(ls@) =~= base + target_lines(ts@.take(i + 1)));
        i = i + 1;
    }
    assert(ts@.take(ts@.len() as int) =~= ts@);
}

fn push_conflicts(ls: &mut Vec<String>, cs: &Vec<ConflictText>)
    ensures
        string_views(final(ls)@) == string_views(old(ls)@) + conflict_lines(cs@),
{
    let ghost base = string_views(ls@);
    let mut i: usize = 0;
    while i < cs.len()
        invariant
            i <= cs@.len(),
            string_views(ls@) == base + conflict_lines(cs@.take(i as int)),
        decreases cs@.len() - i,
    {
        let c = &cs[i];
        let ghost before = string_views(ls@);
        let mut head = String::from_str("  - ");
        head.append(c.code.as_str());
        head.append(": ");
        head.append(c.message.as_str());
        push_line(ls, head);
        let ghost after_head = string_views(ls@);
        let sources = &c.sources;
        let mut j: usize = 0;
        while j < sources.len()
            invariant
                j <= sources@.len(),
                string_views(ls@) == after_head + sources@.take(j as int).map_values(
                    |s: ConflictSourceText| conflict_source_line(s),
                ),
            decreases sources@.len() - j,
        {
            let s = &sources[j];
            let mut line = String::from_str("      source: ");
            line.append(s.kind.as_str());
            line.append(" ");
            line.append(s.path.as_str());
            line.append(" ");
            line.append(s.confidence.as_str());
            match &s.detail {
                Some(d) => {
                    line.append(" (");
                    line.append(d.as_str());
                    line.append(")");
                },
                None => {
                    proof {
                        reveal_strlit("");
                        assert(line@ + ""@ =~= line@);
                    }
                },
            }
            assert(line@ == conflict_source_line(*s));
            push_line(ls, line);
            assert(sources@.take(j + 1).map_values(|s: ConflictSourceText| conflict_source_line(s))
                =~= sources@.take(j as int).map_values(|s: ConflictSourceText| conflict_source_line(s)).push(line@));
            j = j + 1;
        }
        assert(sources@.take(sources@.len() as int) =~= sources@);
        proof {
            assert(cs@.take(i + 1).drop_last() =~= cs@.take(i as int));
            assert(cs@.take(i + 1).last() == cs@[i as int]);
        }
        assert(string_views(ls@) =~= base + conflict_lines(cs@.take(i + 1)));
        i = i + 1;
    }
    assert(cs@.take(cs@.len() as int) =~= cs@);
}

fn push_diagnostics(ls: &mut Vec<String>, warnings: &Vec<DiagnosticText>, conflicts: &Vec<ConflictText>)
    ensures
        string_views(final(ls)@) == string_views(old(ls)@) + diagnostic_lines(warnings@, conflicts@),
{
    if warnings.len() > 0 {
        push_line(ls, String::from_str("warnings:"));
        let ghost base = string_views(ls@);
        let mut i: usize = 0;
        while i < warnings.len()
            invariant
                i <= warnings@.len(),
                string_views(ls@) == base + warnings@.take(i as int).map_values(
                    |w: DiagnosticText| "  - "@ + w.code@ + ": "@ + w.message@,
                ),
            decreases warnings@.len() - i,
        {
            let mut line = String::from_str("  - ");
            line.append(warnings[i].code.as_str());
            line.append(": ");
            line.append(warnings[i].message.as_str());
            push_line(ls, line);
            assert(warnings@.take(i + 1).map_values(|w: DiagnosticText| "  - "@ + w.code@ + ": "@ + w.message@)
                =~= warnings@.take(i as int).map_values(
                |w: DiagnosticText| "  - "@ + w.code@ + ": "@ + w.message@,
            ).push(line@));
            i = i + 1;
        }
        assert(warnings@.take(warnings@.len() as int) =~= warnings@);
    }
    let ghost mid = string_views(ls@);
    if conflicts.len() > 0 {
        push_line(ls, String::from_str("conflicts:"));
        push_conflicts(ls, conflicts);
    }
    assert(string_views(ls@) =~= string_views(old(ls)@) + diagnostic_lines(warnings@, conflicts@));
}

/// The text of `env show` for a plan: its lines (see `plan_lines`), each
/// ended by a newline.
pub fn render_plan(plan: &EnvironmentPlanText) -> (r: String)
    ensures
        r@ == lines_text(plan_lines(*plan)),
{
    let mut ls: Vec<String> = Vec::new();
    let mut head = String::from_str("environment plan ");
    head.append(plan.name.as_str());
    push_line(&mut ls, head);
    let mut digest = String::from_str("contract digest: ");
    digest.append(plan.contract_digest.as_str());
    push_line(&mut ls, digest);
    push_platforms(&mut ls, &plan.platforms);
    push_tools(&mut ls, &plan.tools);
    push_debian(&mut ls, &plan.debian_packages);
    push_capabilities(&mut ls, plan.docker, plan.network);
    push_line(&mut ls, String::from_str("targets:"));
    push_targets(&mut ls, &plan.targets);
    push_diagnostics(&mut ls, &plan.warnings, &plan.conflicts);
    assert(string_views(ls@) =~= plan_lines(*plan));
    write_lines(&ls)
}


/// The SHA-256 digest of `data`, written in lower-case hexadecimal.
pub uninterp spec fn sha256_hex(data: Seq<u8>) -> Seq<char>;

pub open spec fn is_lower_hex_digit(c: char) -> bool {
    ('0' <= c && c <= '9') || ('a' <= c && c <= 'f')
}

/// Hashes `data` with `sha2::Sha256::digest` and writes the digest with
/// `{:x}`. Trusted: the text is the named function of the bytes; the
/// digest has 32 bytes and `{:x}` writes each as two lower-case
/// hexadecimal digits, so the text has 64 such characters.
#[verifier::external_body]
pub(crate) fn sha256_text(data: &[u8]) -> (r: String)
    ensures
        r@ == sha256_hex(data@),
        r@.len() == 64,
        forall|i: int| 0 <= i < 64 ==> is_lower_hex_digit(#[trigger] r@[i]),
{
    format!("{:x}", <sha2::Sha256 as sha2::Digest>::digest(data))
}

/// The digest a lock records for a source file: `sha256:` and the hex
/// digest of its bytes.
pub fn source_digest(bytes: &[u8]) -> (r: String)
    ensures
        r@ == "sha256:"@ + sha256_hex(bytes@),
{
    let mut out = String::from_str("sha256:");
    out.append(sha256_text(bytes).as_str());
    out
}

/// The source paths a target's requirements name, in the order the plan
/// lists them.
pub open spec fn target_source_paths(t: TargetText) -> Seq<Seq<char>> {
    t.runtimes@.map_values(|r: RuntimeText| r.source.path@) + (match t.package_manager {
        Some(m) => seq![m.source.path@],
        None => seq![],
    }) + t.signal_tools@.map_values(|x: SignalToolText| x.source.path@) + t.system_requirements@.map_values(
        |x: SystemRequirementText| x.source.path@,
    ) + t.dependency_locks@.map_values(|x: DependencyLockText| x.source.path@)
}

pub open spec fn targets_source_paths(ts: Seq<TargetText>) -> Seq<Seq<char>>
    decreases ts.len(),
{
    if ts.len() == 0 {
        seq![]
    } else {
        targets_source_paths(ts.drop_last()) + target_source_paths(ts.last())
    }
}

/// Every source path the plan names.
pub open spec fn plan_source_paths(p: EnvironmentPlanText) -> Seq<Seq<char>> {
    p.tools@.map_values(|t: ToolText| t.source.path@) + p.debian_packages@.map_values(
        |d: DebianPackageText| d.source.path@,
    ) + targets_source_paths(p.targets@)
}

fn add_path(acc: &mut Vec<String>, path: &String, Ghost(seen): Ghost<Seq<Seq<char>>>)
    requires
        strictly_sorted(string_views(old(acc)@)),
        string_views(old(acc)@).to_set() == seen.to_set(),
    ensures
        strictly_sorted(string_views(final(acc)@)),
        string_views(final(acc)@).to_set() == seen.push(path@).to_set(),
{
    insert_sorted(acc, path.clone());
    proof {
        seen.lemma_push_to_set_commute(path@);
    }
}

fn add_paths_of_target(acc: &mut Vec<String>, t: &TargetText, Ghost(seen): Ghost<Seq<Seq<char>>>)
    requires
        strictly_sorted(string_views(old(acc)@)),
        string_views(old(acc)@).to_set() == seen.to_set(),
    ensures
        strictly_sorted(string_views(final(acc)@)),
        string_views(final(acc)@).to_set() == (seen + target_source_paths(*t)).to_set(),
{
    let ghost mut so_far = seen;
    let mut i: usize = 0;
    while i < t.runtimes.len()
        invariant
            i <= t.runtimes@.len(),
            strictly_sorted(string_views(acc@)),
            so_far == seen + t.runtimes@.take(i as int).map_values(|r: RuntimeText| r.source.path@),
            string_views(acc@).to_set() == so_far.to_set(),
        decreases t.runtimes@.len() - i,
    {
        add_path(acc, &t.runtimes[i].source.path, Ghost(so_far));
        proof {
            assert(t.runtimes@.take(i + 1).map_values(|r: RuntimeText| r.source.path@) =~= t.runtimes@.take(
                i as int,
            ).map_values(|r: RuntimeText| r.source.path@).push(t.runtimes@[i as int].source.path@));
            so_far = so_far.push(t.runtimes@[i as int].source.path@);
        }
        i = i + 1;
    }
    assert(t.runtimes@.take(t.runtimes@.len() as int) =~= t.runtimes@);
    match &t.package_manager {
        Some(m) => {
            add_path(acc, &m.source.path, Ghost(so_far));
            proof {
                so_far = so_far.push(m.source.path@);
            }
        },
        None => {},
    }
    let mut j: usize = 0;
    let ghost base_j = so_far;
    while j < t.signal_tools.len()
        invariant
            j <= t.signal_tools@.len(),
            strictly_sorted(string_views(acc@)),
            so_far == base_j + t.signal_tools@.take(j as int).map_values(|x: SignalToolText| x.source.path@),
            string_views(acc@).to_set() == so_far.to_set(),
        decreases t.signal_tools@.len() - j,
    {
        add_path(acc, &t.signal_tools[j].source.path, Ghost(so_far));
        proof {
            assert(t.signal_tools@.take(j + 1).map_values(|x: SignalToolText| x.source.path@)
                =~= t.signal_tools@.take(j as int).map_values(|x: SignalToolText| x.source.path@).push(
                t.signal_tools@[j as int].source.path@,
            ));
            so_far = so_far.push(t.signal_tools@[j as int].source.path@);
        }
        j = j + 1;
    }
    assert(t.signal_tools@.take(t.signal_tools@.len() as int) =~= t.signal_tools@);
    let mut k: usize = 0;
    let ghost base_k = so_far;
    while k < t.system_requirements.len()
        invariant
            k <= t.system_requirements@.len(),
            strictly_sorted(string_views(acc@)),
            so_far == base_k + t.system_requirements@.take(k as int).map_values(
                |x: SystemRequirementText| x.source.path@,
            ),
            string_views(acc@).to_set() == so_far.to_set(),
        decreases t.system_requirements@.len() - k,
    {
        add_path(acc, &t.system_requirements[k].source.path, Ghost(so_far));
        proof {
            assert(t.system_requirements@.take(k + 1).map_values(|x: SystemRequirementText| x.source.path@)
                =~= t.system_requirements@.take(k as int).map_values(|x: SystemRequirementText| x.source.path@).push(
                t.system_requirements@[k as int].source.path@,
            ));
            so_far = so_far.push(t.system_requirements@[k as int].source.path@);
        }
        k = k + 1;
    }
    assert(t.system_requirements@.take(t.system_requirements@.len() as int) =~= t.system_requirements@);
    let mut l: usize = 0;
    let ghost base_l = so_far;
    while l < t.dependency_locks.len()
        invariant
            l <= t.dependency_locks@.len(),
            strictly_sorted(string_views(acc@)),
            so_far == base_l + t.dependency_locks@.take(l as int).map_values(|x: DependencyLockText| x.source.path@),
            string_views(acc@).to_set() == so_far.to_set(),
        decreases t.dependency_locks@.len() - l,
    {
        add_path(acc, &t.dependency_locks[l].source.path, Ghost(so_far));
        proof {
            assert(t.dependency_locks@.take(l + 1).map_values(|x: DependencyLockText| x.source.path@)
                =~= t.dependency_locks@.take(l as int).map_values(|x: DependencyLockText| x.source.path@).push(
                t.dependency_locks@[l as int].source.path@,
            ));
            so_far = so_far.push(t.dependency_locks@[l as int].source.path@);
        }
        l = l + 1;
    }
    assert(t.dependency_locks@.take(t.dependency_locks@.len() as int) =~= t.dependency_locks@);
    assert(so_far =~= seen + target_source_paths(*t));
}

/// The source files a lock hashes: every path the plan names, once each, in
/// code-point order.
pub fn source_paths(plan: &EnvironmentPlanText) -> (r: Vec<String>)
    ensures
        strictly_sorted(string_views(r@)),
        string_views(r@).to_set() == plan_source_paths(*plan).to_set(),
{
    let mut acc: Vec<String> = Vec::new();
    let ghost mut so_far: Seq<Seq<char>> = Seq::empty();
    assert(string_views(acc@).to_set() =~= so_far.to_set());
    let mut i: usize = 0;
    while i < plan.tools.len()
        invariant
            i <= plan.tools@.len(),
            strictly_sorted(string_views(acc@)),
            so_far == plan.tools@.take(i as int).map_values(|t: ToolText| t.source.path@),
            string_views(acc@).to_set() == so_far.to_set(),
        decreases plan.tools@.len() - i,
    {
        add_path(&mut acc, &plan.tools[i].source.path, Ghost(so_far));
        proof {
            assert(plan.tools@.take(i + 1).map_values(|t: ToolText| t.source.path@) =~= plan.tools@.take(
                i as int,
            ).map_values(|t: ToolText| t.source.path@).push(plan.tools@[i as int].source.path@));
            so_far = so_far.push(plan.tools@[i as int].source.path@);
        }
        i = i + 1;
    }
    assert(plan.tools@.take(plan.tools@.len() as int) =~= plan.tools@);
    let ghost base_j = so_far;
    let mut j: usize = 0;
    while j < plan.debian_packages.len()
        invariant
            j <= plan.debian_packages@.len(),
            strictly_sorted(string_views(acc@)),
            so_far == base_j + plan.debian_packages@.take(j as int).map_values(|d: DebianPackageText| d.source.path@),
            string_views(acc@).to_set() == so_far.to_set(),
        decreases plan.debian_packages@.len() - j,
    {
        add_path(&mut acc, &plan.debian_packages[j].source.path, Ghost(so_far));
        proof {
            assert(plan.debian_packages@.take(j + 1).map_values(|d: DebianPackageText| d.source.path@)
                =~= plan.debian_packages@.take(j as int).map_values(|d: DebianPackageText| d.source.path@).push(
                plan.debian_packages@[j as int].source.path@,
            ));
            so_far = so_far.push(plan.debian_packages@[j as int].source.path@);
        }
        j = j + 1;
    }
    assert(plan.debian_packages@.take(plan.debian_packages@.len() as int) =~= plan.debian_packages@);
    let ghost base_k = so_far;
    let mut k: usize = 0;
    while k < plan.targets.len()
        invariant
            k <= plan.targets@.len(),
            strictly_sorted(string_views(acc@)),
            so_far == base_k + targets_source_paths(plan.targets@.take(k as int)),
            string_views(acc@).to_set() == so_far.to_set(),
        decreases plan.targets@.len() - k,
    {
        add_paths_of_target(&mut acc, &plan.targets[k], Ghost(so_far));
        proof {
            assert(plan.targets@.take(k + 1).drop_last() =~= plan.targets@.take(k as int));
            assert(plan.targets@.take(k + 1).last() == plan.targets@[k as int]);
            so_far = so_far + target_source_paths(plan.targets@[k as int]);
            assert(so_far =~= base_k + targets_source_paths(plan.targets@.take(k + 1)));
        }
        k = k + 1;
    }
    assert(plan.targets@.take(plan.targets@.len() as int) =~= plan.targets@);
    assert(so_far =~= plan_source_paths(*plan));
    acc
}

/// The digest recorded for `path` (the last entry for it).
pub open spec fn digest_of(digests: Seq<(String, String)>, path: Seq<char>) -> Option<Seq<char>>
    decreases digests.len(),
{
    if digests.len() == 0 {
        None
    } else if digests.last().0@ == path {
        Some(digests.last().1@)
    } else {
        digest_of(digests.drop_last(), path)
    }
}

fn lookup_digest(digests: &Vec<(String, String)>, path: &str) -> (r: Option<String>)
    ensures
        match r {
            Some(d) => digest_of(digests@, path@) == Some(d@),
            None => digest_of(digests@, path@) is None,
        },
{
    let mut i: usize = digests.len();
    assert(digests@.take(digests@.len() as int) =~= digests@);
    while i > 0
        invariant
            i <= digests@.len(),
            digest_of(digests@, path@) == digest_of(digests@.take(i as int), path@),
        decreases i,
    {
        assert(digests@.take(i as int).drop_last() =~= digests@.take(i - 1));
        assert(digests@.take(i as int).last() == digests@[i - 1]);
        if str_eq(digests[i - 1].0.as_str(), path) {
            return Some(digests[i - 1].1.clone());
        }
        i = i - 1;
    }
    None
}

/// The first dependency lock, target by target, whose recorded digest is
/// not the digest just taken of its file.
pub open spec fn first_changed_lock_upto(
    targets: Seq<TargetText>,
    digests: Seq<(String, String)>,
    n: int,
) -> Option<Seq<char>>
    decreases n,
{
    if n <= 0 {
        None
    } else {
        match first_changed_lock_upto(targets, digests, n - 1) {
            Some(p) => Some(p),
            None => first_changed_in(targets[n - 1].dependency_locks@, digests, targets[n - 1].dependency_locks@.len() as int),
        }
    }
}

pub open spec fn first_changed_in(locks: Seq<DependencyLockText>, digests: Seq<(String, String)>, n: int) -> Option<Seq<char>>
    decreases n,
{
    if n <= 0 {
        None
    } else {
        match first_changed_in(locks, digests, n - 1) {
            Some(p) => Some(p),
            None => if digest_of(digests, locks[n - 1].path@) != Some(locks[n - 1].digest@) {
                Some(locks[n - 1].path@)
            } else {
                None
            },
        }
    }
}

/// A lock is refused when a dependency lock file changed while the lock
/// was being taken.
pub fn check_dependency_locks(targets: &Vec<TargetText>, digests: &Vec<(String, String)>) -> (r: Result<(), String>)
    ensures
        match first_changed_lock_upto(targets@, digests@, targets@.len() as int) {
            None => r is Ok,
            Some(p) => r matches Err(m) && m@ == "dependency lock changed during locking: "@ + p,
        },
{
    let mut i: usize = 0;
    while i < targets.len()
        invariant
            i <= targets@.len(),
            first_changed_lock_upto(targets@, digests@, i as int) is None,
        decreases targets@.len() - i,
    {
        let locks = &targets[i].dependency_locks;
        assert(locks@ == targets@[i as int].dependency_locks@);
        let mut j: usize = 0;
        while j < locks.len()
            invariant
                j <= locks@.len(),
                i < targets@.len(),
                locks == &targets@[i as int].dependency_locks,
                first_changed_lock_upto(targets@, digests@, i as int) is None,
                first_changed_in(locks@, digests@, j as int) is None,
            decreases locks@.len() - j,
        {
            let same = match lookup_digest(digests, locks[j].path.as_str()) {
                Some(d) => str_eq(d.as_str(), locks[j].digest.as_str()),
                None => false,
            };
            if !same {
                let mut m = String::from_str("dependency lock changed during locking: ");
                m.append(locks[j].path.as_str());
                proof {
                    assert(first_changed_in(locks@, digests@, j + 1) == Some(locks@[j as int].path@));
                    lemma_changed_in_sticks(locks@, digests@, j + 1, locks@.len() as int);
                    assert(first_changed_in(targets@[i as int].dependency_locks@, digests@, locks@.len() as int)
                        == Some(locks@[j as int].path@));
                    assert(first_changed_lock_upto(targets@, digests@, i + 1) == Some(locks@[j as int].path@));
                    lemma_changed_lock_sticks(targets@, digests@, i + 1, targets@.len() as int);
                }
                return Err(m);
            }
            j = j + 1;
        }
        assert(first_changed_lock_upto(targets@, digests@, i + 1) is None);
        i = i + 1;
    }
    Ok(())
}

proof fn lemma_changed_in_sticks(locks: Seq<DependencyLockText>, digests: Seq<(String, String)>, i: int, n: int)
    requires
        0 <= i <= n,
        first_changed_in(locks, digests, i) is Some,
    ensures
        first_changed_in(locks, digests, n) == first_changed_in(locks, digests, i),
    decreases n - i,
{
    if i < n {
        lemma_changed_in_sticks(locks, digests, i, n - 1);
    }
}

proof fn lemma_changed_lock_sticks(targets: Seq<TargetText>, digests: Seq<(String, String)>, i: int, n: int)
    requires
        0 <= i <= n,
        first_changed_lock_upto(targets, digests, i) is Some,
    ensures
        first_changed_lock_upto(targets, digests, n) == first_changed_lock_upto(targets, digests, i),
    decreases n - i,
{
    if i < n {
        lemma_changed_lock_sticks(targets, digests, i, n - 1);
    }
}

/// Merging freshly taken digests into those of the lock: each path keeps
/// one digest, and a path whose digest differs from the one already held
/// means its source changed while the lock was being taken.
pub open spec fn merged_upto(
    existing: Map<Seq<char>, Seq<char>>,
    fresh: Seq<(String, String)>,
    n: int,
) -> Result<Map<Seq<char>, Seq<char>>, Seq<char>>
    decreases n,
{
    if n <= 0 {
        Ok(existing)
    } else {
        match merged_upto(existing, fresh, n - 1) {
            Err(m) => Err(m),
            Ok(m) => {
                let (p, d) = fresh[n - 1];
                if m.contains_key(p@) && m[p@] != d@ {
                    Err("environment source changed during locking: "@ + p@)
                } else {
                    Ok(m.insert(p@, d@))
                }
            },
        }
    }
}

/// The map a list of path digests stands for (a later entry wins).
pub open spec fn digest_map(v: Seq<(String, String)>) -> Map<Seq<char>, Seq<char>>
    decreases v.len(),
{
    if v.len() == 0 {
        Map::empty()
    } else {
        digest_map(v.drop_last()).insert(v.last().0@, v.last().1@)
    }
}

proof fn lemma_digest_of_map(v: Seq<(String, String)>, p: Seq<char>)
    ensures
        match digest_of(v, p) {
            Some(d) => digest_map(v).contains_key(p) && digest_map(v)[p] == d,
            None => !digest_map(v).contains_key(p),
        },
    decreases v.len(),
{
    if v.len() > 0 {
        lemma_digest_of_map(v.drop_last(), p);
    }
}

proof fn lemma_merged_error_sticks(existing: Map<Seq<char>, Seq<char>>, fresh: Seq<(String, String)>, i: int, n: int)
    requires
        0 <= i <= n,
        merged_upto(existing, fresh, i) is Err,
    ensures
        merged_upto(existing, fresh, n) == merged_upto(existing, fresh, i),
    decreases n - i,
{
    if i < n {
        lemma_merged_error_sticks(existing, fresh, i, n - 1);
    }
}

pub fn merge_source_digests(existing: Vec<(String, String)>, fresh: &Vec<(String, String)>) -> (r: Result<Vec<(String, String)>, String>)
    ensures
        match merged_upto(digest_map(existing@), fresh@, fresh@.len() as int) {
            Ok(m) => r matches Ok(v) && digest_map(v@) == m,
            Err(e) => r matches Err(s) && s@ == e,
        },
{
    let ghost start = digest_map(existing@);
    let mut acc = existing;
    let mut i: usize = 0;
    while i < fresh.len()
        invariant
            i <= fresh@.len(),
            start == digest_map(existing@),
            merged_upto(start, fresh@, i as int) == Ok::<Map<Seq<char>, Seq<char>>, Seq<char>>(digest_map(acc@)),
        decreases fresh@.len() - i,
    {
        let path = &fresh[i].0;
        let digest = &fresh[i].1;
        proof {
            lemma_digest_of_map(acc@, path@);
        }
        match lookup_digest(&acc, path.as_str()) {
            Some(d) => {
                if !str_eq(d.as_str(), digest.as_str()) {
                    let mut m = String::from_str("environment source changed during locking: ");
                    m.append(path.as_str());
                    proof {
                        assert(digest_map(acc@).contains_key(path@) && digest_map(acc@)[path@] != digest@);
                        assert(merged_upto(start, fresh@, i + 1) == Err::<Map<Seq<char>, Seq<char>>, Seq<char>>(m@));
                        lemma_merged_error_sticks(start, fresh@, i + 1, fresh@.len() as int);
                        assert(merged_upto(start, fresh@, fresh@.len() as int) == Err::<Map<Seq<char>, Seq<char>>, Seq<char>>(m@));
                    }
                    return Err(m);
                }
                proof {
                    assert(digest_map(acc@).insert(path@, digest@) =~= digest_map(acc@));
                }
            },
            None => {
                let ghost before = acc@;
                let entry = (path.clone(), digest.clone());
                assert(entry.0@ == path@ && entry.1@ == digest@);
                acc.push(entry);
                assert(acc@.drop_last() =~= before);
                assert(digest_map(acc@) == digest_map(before).insert(path@, digest@));
            },
        }
        i = i + 1;
    }
    Ok(acc)
}

/// Whether a lock must be written: there is none yet, or it differs.
pub fn lock_changed(existing: Option<&str>, serialized: &str) -> (r: bool)
    ensures
        r == match existing {
            Some(e) => e@ != serialized@,
            None => true,
        },
{
    match existing {
        Some(e) => !str_eq(e, serialized),
        None => true,
    }
}

} // verus!
