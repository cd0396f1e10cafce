//! The human rendering of the configured signal contract.
//!
//! Numbers that are fractional in the policy (coverage and complexity
//! thresholds, CPU limits) arrive already written; the rendering decides
//! the layout and what is said when something is not configured.
use crate::text::{decimal, join, lines_text, string_views, u64_to_decimal, write_lines};
use crate::vocabulary::{spec_signal_slug, signal_kind_slug, Language, SignalKind};
use vstd::prelude::*;

verus! {

broadcast use vstd::string::group_string_axioms;

/// The text that `format!("{value:?}")` gives for a string: the string
/// quoted, with the characters that need it escaped.
pub uninterp spec fn debug_text(value: Seq<char>) -> Seq<char>;

/// Writes `value` with `format!("{value:?}")` (std's `Debug` for `str`).
/// Trusted: the result is the named function of the text.
#[verifier::external_body]
pub(crate) fn debug_quoted(value: &str) -> (r: String)
    ensures
        r@ == debug_text(value@),
{
    format!("{value:?}")
}

/// A warning and a failing threshold, as written in the policy.
pub struct ThresholdText {
    pub warn: String,
    pub fail: String,
}

pub struct ToolOverrideProjection {
    pub command: String,
    pub args: Vec<String>,
}

pub struct SizeRuleProjection {
    pub pattern: String,
    pub warn: u64,
    pub fail: u64,
    pub exclude: Vec<String>,
}

pub struct ForbiddenDependencyProjection {
    pub from: String,
    pub targets: Vec<String>,
}

/// What the contract configures for one signal.
pub enum SignalDetail {
    Tool { tool_override: Option<ToolOverrideProjection> },
    Coverage {
        line_percent: Option<ThresholdText>,
        branch_percent: Option<ThresholdText>,
        coverage_satisfies_test: bool,
        tool_override: Option<ToolOverrideProjection>,
    },
    Size { rules: Vec<SizeRuleProjection> },
    Complexity { fn_cyclomatic: Option<ThresholdText>, fn_cognitive: Option<ThresholdText> },
    Deps { forbidden: Vec<ForbiddenDependencyProjection> },
}

pub struct SignalProjection {
    pub kind: SignalKind,
    pub enabled: bool,
    pub detail: SignalDetail,
}

pub struct LanguageProjection {
    pub language: Language,
    pub roots: Vec<String>,
    pub signals: Vec<SignalProjection>,
}

pub struct EnvironmentToolProjection {
    pub tool: String,
    pub version: String,
}

/// Resource limits as written.
pub struct ResourceLimitsText {
    pub cpus: String,
    pub memory_mib: String,
    pub memory_swap_mib: String,
    pub pids: String,
    pub nofile: String,
}

pub struct EnvironmentProjection {
    pub tools: Vec<EnvironmentToolProjection>,
    pub debian_packages: Vec<String>,
    pub docker: String,
    pub network: String,
    pub resources: ResourceLimitsText,
}

pub struct PolicyWarning {
    pub code: String,
    pub policy_path: String,
    pub message: String,
}

pub struct ContractProjection {
    pub projection_version: String,
    pub environment: EnvironmentProjection,
    pub languages: Vec<LanguageProjection>,
    pub warnings: Vec<PolicyWarning>,
}

/// The projection version that the contract reports.
pub const CONTRACT_PROJECTION_VERSION: &'static str = "0.4.0";

pub open spec fn quoted_list(values: Seq<String>) -> Seq<char> {
    "["@ + join(values.map_values(|v: String| debug_text(v@)), ", "@) + "]"@
}

pub open spec fn override_lines(value: Option<ToolOverrideProjection>) -> Seq<Seq<char>> {
    match value {
        Some(v) => seq!["      tool override: command "@ + debug_text(v.command@) + " | args "@ + quoted_list(v.args@)],
        None => seq!["      tool override: not configured"@],
    }
}

pub open spec fn threshold_lines(name: Seq<char>, value: Option<ThresholdText>) -> Seq<Seq<char>> {
    match value {
        Some(t) => seq!["        "@ + name + ": warn "@ + t.warn@ + " | fail "@ + t.fail@],
        None => seq!["        "@ + name + ": not configured"@],
    }
}

pub open spec fn size_rule_lines(rules: Seq<SizeRuleProjection>) -> Seq<Seq<char>>
    decreases rules.len(),
{
    if rules.len() == 0 {
        seq![]
    } else {
        let r = rules.last();
        size_rule_lines(rules.drop_last()) + seq![
            "        - pattern: "@ + debug_text(r.pattern@) + " | warn: "@ + decimal(r.warn as nat) + " | fail: "@
                + decimal(r.fail as nat),
            "          exclusions: "@ + if r.exclude@.len() == 0 {
                "none"@
            } else {
                quoted_list(r.exclude@)
            },
        ]
    }
}

pub open spec fn forbidden_lines(rules: Seq<ForbiddenDependencyProjection>) -> Seq<Seq<char>>
    decreases rules.len(),
{
    if rules.len() == 0 {
        seq![]
    } else {
        let r = rules.last();
        forbidden_lines(rules.drop_last()) + if r.targets@.len() == 0 {
            seq!["        - "@ + debug_text(r.from@) + " -> none"@]
        } else {
            r.targets@.map_values(|t: String| "        - "@ + debug_text(r.from@) + " -> "@ + debug_text(t@))
        }
    }
}

/// The lines that describe what a signal configures.
pub open spec fn detail_lines(detail: SignalDetail) -> Seq<Seq<char>> {
    match detail {
        SignalDetail::Tool { tool_override } => override_lines(tool_override),
        SignalDetail::Coverage { line_percent, branch_percent, coverage_satisfies_test, tool_override } => seq![
            "      thresholds:"@,
        ] + threshold_lines("line_percent (minimum)"@, line_percent) + threshold_lines(
            "branch_percent (minimum)"@,
            branch_percent,
        ) + seq![
            "      coverage satisfies test: "@ + if coverage_satisfies_test {
                "yes"@
            } else {
                "no"@
            },
        ] + override_lines(tool_override),
        SignalDetail::Size { rules } => if rules@.len() == 0 {
            seq!["      rules: not configured"@]
        } else {
            seq!["      rules:"@] + size_rule_lines(rules@)
        },
        SignalDetail::Complexity { fn_cyclomatic, fn_cognitive } => seq!["      thresholds:"@]
            + threshold_lines("fn_cyclomatic (maximum)"@, fn_cyclomatic) + threshold_lines(
            "fn_cognitive (maximum)"@,
            fn_cognitive,
        ),
        SignalDetail::Deps { forbidden } => if forbidden@.len() == 0 {
            seq!["      restrictions: not configured"@]
        } else {
            seq!["      restrictions:"@] + forbidden_lines(forbidden@)
        },
    }
}

fn push_line(ls: &mut Vec<String>, s: String)
    ensures
        string_views(final(ls)@) == string_views(old(ls)@).push(s@),
{
    let ghost before = ls@;
    ls.push(s);
    assert(string_views(ls@) =~= string_views(before).push(s@));
}

fn push_str(ls: &mut Vec<String>, s: &str)
    ensures
        string_views(final(ls)@) == string_views(old(ls)@).push(s@),
{
    push_line(ls, String::from_str(s));
}

pub fn quoted(value: &str) -> (r: String)
    ensures
        r@ == debug_text(value@),
{
    debug_quoted(value)
}

/// `[` and the quoted values, separated by `, `, then `]`.
pub fn render_quoted_list(values: &Vec<String>) -> (r: String)
    ensures
        r@ == quoted_list(values@),
{
    let mut out = String::from_str("[");
    let ghost qs = values@.map_values(|v: String| debug_text(v@));
    let mut i: usize = 0;
    while i < values.len()
        invariant
            i <= values@.len(),
            qs == values@.map_values(|v: String| debug_text(v@)),
            out@ == "["@ + join(qs.take(i as int), ", "@),
        decreases values@.len() - i,
    {
        proof {
            assert(qs.take(i + 1).drop_last() =~= qs.take(i as int));
            assert(qs.take(i + 1).last() == debug_text(values@[i as int]@));
        }
        if i > 0 {
            out.append(", ");
        }
        let q = quoted(values[i].as_str());
        out.append(q.as_str());
        proof {
            if i == 0 {
                assert(qs.take(1).len() == 1);
            }
        }
        i = i + 1;
    }
    out.append("]");
    assert(qs.take(values@.len() as int) =~= qs);
    out
}

fn push_override(ls: &mut Vec<String>, value: &Option<ToolOverrideProjection>)
    ensures
        string_views(final(ls)@) == string_views(old(ls)@) + override_lines(*value),
{
    match value {
        Some(v) => {
            let mut line = String::from_str("      tool override: command ");
            let q = quoted(v.command.as_str());
            line.append(q.as_str());
            line.append(" | args ");
            let l = render_quoted_list(&v.args);
            line.append(l.as_str());
            push_line(ls, line);
        },
        None => push_str(ls, "      tool override: not configured"),
    }
    assert(string_views(ls@) =~= string_views(old(ls)@) + override_lines(*value));
}

fn push_threshold(ls: &mut Vec<String>, name: &str, value: &Option<ThresholdText>)
    ensures
        string_views(final(ls)@) == string_views(old(ls)@) + threshold_lines(name@, *value),
{
    let mut line = String::from_str("        ");
    line.append(name);
    match value {
        Some(t) => {
            line.append(": warn ");
            line.append(t.warn.as_str());
            line.append(" | fail ");
            line.append(t.fail.as_str());
        },
        None => {
            line.append(": not configured");
        },
    }
    push_line(ls, line);
    assert(string_views(ls@) =~= string_views(old(ls)@) + threshold_lines(name@, *value));
}

fn push_size_rules(ls: &mut Vec<String>, rules: &Vec<SizeRuleProjection>)
    ensures
        string_views(final(ls)@) == string_views(old(ls)@) + size_rule_lines(rules@),
{
    let ghost start = string_views(ls@);
    let mut i: usize = 0;
    while i < rules.len()
        invariant
            i <= rules@.len(),
            string_views(ls@) == start + size_rule_lines(rules@.take(i as int)),
        decreases rules@.len() - i,
    {
        proof {
            assert(rules@.take(i + 1).drop_last() =~= rules@.take(i as int));
            assert(rules@.take(i + 1).last() == rules@[i as int]);
        }
        let r = &rules[i];
        let mut first = String::from_str("        - pattern: ");
        let q = quoted(r.pattern.as_str());
        first.append(q.as_str());
        first.append(" | warn: ");
        let w = u64_to_decimal(r.warn);
        first.append(w.as_str());
        first.append(" | fail: ");
        let f = u64_to_decimal(r.fail);
        first.append(f.as_str());
        push_line(ls, first);
        let mut second = String::from_str("          exclusions: ");
        if r.exclude.len() == 0 {
            second.append("none");
        } else {
            let l = render_quoted_list(&r.exclude);
            second.append(l.as_str());
        }
        push_line(ls, second);
        i = i + 1;
    }
    assert(rules@.take(rules@.len() as int) =~= rules@);
}

fn push_forbidden(ls: &mut Vec<String>, rules: &Vec<ForbiddenDependencyProjection>)
    ensures
        string_views(final(ls)@) == string_views(old(ls)@) + forbidden_lines(rules@),
{
    let ghost start = string_views(ls@);
    let mut i: usize = 0;
    while i < rules.len()
        invariant
            i <= rules@.len(),
            string_views(ls@) == start + forbidden_lines(rules@.take(i as int)),
        decreases rules@.len() - i,
    {
        proof {
            assert(rules@.take(i + 1).drop_last() =~= rules@.take(i as int));
            assert(rules@.take(i + 1).last() == rules@[i as int]);
        }
        let r = &rules[i];
        let from = quoted(r.from.as_str());
        if r.targets.len() == 0 {
            let mut line = String::from_str("        - ");
            line.append(from.as_str());
            line.append(" -> none");
            push_line(ls, line);
        } else {
            let ghost base = string_views(ls@);
            let mut j: usize = 0;
            while j < r.targets.len()
                invariant
                    j <= r.targets@.len(),
                    from@ == debug_text(r.from@),
                    string_views(ls@) == base + r.targets@.take(j as int).map_values(
                        |t: String| "        - "@ + debug_text(r.from@) + " -> "@ + debug_text(t@),
                    ),
                decreases r.targets@.len() - j,
            {
                let mut line = String::from_str("        - ");
                line.append(from.as_str());
                line.append(" -> ");
                let t = quoted(r.targets[j].as_str());
                line.append(t.as_str());
                push_line(ls, line);
                assert(r.targets@.take(j + 1) =~= r.targets@.take(j as int).push(r.targets@[j as int]));
                assert(r.targets@.take(j + 1).map_values(
                    |t: String| "        - "@ + debug_text(r.from@) + " -> "@ + debug_text(t@),
                ) =~= r.targets@.take(j as int).map_values(
                    |t: String| "        - "@ + debug_text(r.from@) + " -> "@ + debug_text(t@),
                ).push(line@));
                j = j + 1;
            }
            assert(r.targets@.take(r.targets@.len() as int) =~= r.targets@);
        }
        i = i + 1;
    }
    assert(rules@.take(rules@.len() as int) =~= rules@);
}

/// Appends the lines that describe what a signal configures.
pub fn render_signal_detail(ls: &mut Vec<String>, detail: &SignalDetail)
    ensures
        string_views(final(ls)@) == string_views(old(ls)@) + detail_lines(*detail),
{
    match detail {
        SignalDetail::Tool { tool_override } => {
            push_override(ls, tool_override);
        },
        SignalDetail::Coverage { line_percent, branch_percent, coverage_satisfies_test, tool_override } => {
            push_str(ls, "      thresholds:");
            push_threshold(ls, "line_percent (minimum)", line_percent);
            push_threshold(ls, "branch_percent (minimum)", branch_percent);
            let mut line = String::from_str("      coverage satisfies test: ");
            line.append(
                if *coverage_satisfies_test {
                    "yes"
                } else {
                    "no"
                },
            );
            push_line(ls, line);
            push_override(ls, tool_override);
        },
        SignalDetail::Size { rules } => {
            if rules.len() == 0 {
                push_str(ls, "      rules: not configured");
            } else {
                push_str(ls, "      rules:");
                push_size_rules(ls, rules);
            }
        },
        SignalDetail::Complexity { fn_cyclomatic, fn_cognitive } => {
            push_str(ls, "      thresholds:");
            push_threshold(ls, "fn_cyclomatic (maximum)", fn_cyclomatic);
            push_threshold(ls, "fn_cognitive (maximum)", fn_cognitive);
        },
        SignalDetail::Deps { forbidden } => {
            if forbidden.len() == 0 {
                push_str(ls, "      restrictions: not configured");
            } else {
                push_str(ls, "      restrictions:");
                push_forbidden(ls, forbidden);
            }
        },
    }
    assert(string_views(ls@) =~= string_views(old(ls)@) + detail_lines(*detail));
}


pub open spec fn tool_lines(tools: Seq<EnvironmentToolProjection>) -> Seq<Seq<char>> {
    if tools.len() == 0 {
        seq!["    none"@]
    } else {
        tools.map_values(|t: EnvironmentToolProjection| "    - "@ + t.tool@ + "@"@ + t.version@)
    }
}

pub open spec fn item_lines(items: Seq<String>, indent: Seq<char>) -> Seq<Seq<char>> {
    items.map_values(|i: String| indent + "- "@ + i@)
}

pub open spec fn signal_lines(signals: Seq<SignalProjection>) -> Seq<Seq<char>>
    decreases signals.len(),
{
    if signals.len() == 0 {
        seq![]
    } else {
        let s = signals.last();
        signal_lines(signals.drop_last()) + seq![
            "    "@ + spec_signal_slug(s.kind) + ": "@ + if s.enabled {
                "enabled"@
            } else {
                "disabled"@
            },
        ] + detail_lines(s.detail)
    }
}

pub open spec fn language_lines(languages: Seq<LanguageProjection>) -> Seq<Seq<char>>
    decreases languages.len(),
{
    if languages.len() == 0 {
        seq![]
    } else {
        let l = languages.last();
        language_lines(languages.drop_last()) + seq![""@, "language: "@ + l.language.spec_name(), "  roots:"@]
            + item_lines(l.roots@, "    "@) + seq!["  signals:"@] + signal_lines(l.signals@)
    }
}

pub open spec fn warning_lines(warnings: Seq<PolicyWarning>) -> Seq<Seq<char>> {
    if warnings.len() == 0 {
        seq!["  none"@]
    } else {
        warnings.map_values(|w: PolicyWarning| "  - ["@ + w.code@ + "] "@ + w.policy_path@ + ": "@ + w.message@)
    }
}

/// The environment part of the contract.
pub open spec fn environment_lines(p: ContractProjection) -> Seq<Seq<char>> {
    let e = p.environment;
    seq![
        "Configured signal contract (projection version "@ + p.projection_version@ + ")"@,
        ""@,
        "environment:"@,
        "  docker: "@ + e.docker@ + " | network: "@ + e.network@,
        "  resources: cpus="@ + e.resources.cpus@ + " memory="@ + e.resources.memory_mib@ + "MiB memory+swap="@
            + e.resources.memory_swap_mib@ + "MiB pids="@ + e.resources.pids@ + " nofile="@ + e.resources.nofile@,
        "  tools:"@,
    ] + tool_lines(e.tools@) + seq!["  Debian packages:"@] + if e.debian_packages@.len() == 0 {
        seq!["    none"@]
    } else {
        item_lines(e.debian_packages@, "    "@)
    }
}

/// The lines of the contract: its version, the environment, each language
/// with its roots and signals, and the policy warnings.
pub open spec fn contract_lines(p: ContractProjection) -> Seq<Seq<char>> {
    environment_lines(p) + language_lines(p.languages@) + seq![""@, "warnings:"@] + warning_lines(p.warnings@)
}

fn push_items(ls: &mut Vec<String>, items: &Vec<String>, indent: &str)
    ensures
        string_views(final(ls)@) == string_views(old(ls)@) + item_lines(items@, indent@),
{
    let ghost start = string_views(ls@);
    let mut i: usize = 0;
    while i < items.len()
        invariant
            i <= items@.len(),
            string_views(ls@) == start + item_lines(items@.take(i as int), indent@),
        decreases items@.len() - i,
    {
        let mut line = String::from_str(indent);
        line.append("- ");
        line.append(items[i].as_str());
        push_line(ls, line);
        assert(items@.take(i + 1) =~= items@.take(i as int).push(items@[i as int]));
        assert(item_lines(items@.take(i + 1), indent@) =~= item_lines(items@.take(i as int), indent@).push(line@));
        i = i + 1;
    }
    assert(items@.take(items@.len() as int) =~= items@);
}

fn push_signals(ls: &mut Vec<String>, signals: &Vec<SignalProjection>)
    ensures
        string_views(final(ls)@) == string_views(old(ls)@) + signal_lines(signals@),
{
    let ghost start = string_views(ls@);
    let mut i: usize = 0;
    while i < signals.len()
        invariant
            i <= signals@.len(),
            string_views(ls@) == start + signal_lines(signals@.take(i as int)),
        decreases signals@.len() - i,
    {
        proof {
            assert(signals@.take(i + 1).drop_last() =~= signals@.take(i as int));
            assert(signals@.take(i + 1).last() == signals@[i as int]);
        }
        let s = &signals[i];
        let mut line = String::from_str("    ");
        line.append(signal_kind_slug(s.kind));
        line.append(": ");
        line.append(
            if s.enabled {
                "enabled"
            } else {
                "disabled"
            },
        );
        push_line(ls, line);
        render_signal_detail(ls, &s.detail);
        i = i + 1;
    }
    assert(signals@.take(signals@.len() as int) =~= signals@);
}

fn push_environment(ls: &mut Vec<String>, projection: &ContractProjection)
    ensures
        string_views(final(ls)@) == string_views(old(ls)@) + environment_lines(*projection),
{
    let e = &projection.environment;
    let mut first = String::from_str("Configured signal contract (projection version ");
    first.append(projection.projection_version.as_str());
    first.append(")");
    push_line(ls, first);
    push_str(ls, "");
    push_str(ls, "environment:");
    let mut docker = String::from_str("  docker: ");
    docker.append(e.docker.as_str());
    docker.append(" | network: ");
    docker.append(e.network.as_str());
    push_line(ls, docker);
    let mut res = String::from_str("  resources: cpus=");
    res.append(e.resources.cpus.as_str());
    res.append(" memory=");
    res.append(e.resources.memory_mib.as_str());
    res.append("MiB memory+swap=");
    res.append(e.resources.memory_swap_mib.as_str());
    res.append("MiB pids=");
    res.append(e.resources.pids.as_str());
    res.append(" nofile=");
    res.append(e.resources.nofile.as_str());
    push_line(ls, res);
    push_str(ls, "  tools:");
    let ghost after_header = string_views(ls@);
    push_tools(ls, &e.tools);
    push_str(ls, "  Debian packages:");
    if e.debian_packages.len() == 0 {
        push_str(ls, "    none");
    } else {
        push_items(ls, &e.debian_packages, "    ");
    }
    assert(string_views(ls@) =~= string_views(old(ls)@) + environment_lines(*projection));
}

fn push_tools(ls: &mut Vec<String>, tools: &Vec<EnvironmentToolProjection>)
    ensures
        string_views(final(ls)@) == string_views(old(ls)@) + tool_lines(tools@),
{
    if tools.len() == 0 {
        push_str(ls, "    none");
        return;
    }
    let ghost start = string_views(ls@);
    let mut i: usize = 0;
    while i < tools.len()
        invariant
            i <= tools@.len(),
            string_views(ls@) == start + tools@.take(i as int).map_values(
                |t: EnvironmentToolProjection| "    - "@ + t.tool@ + "@"@ + t.version@,
            ),
        decreases tools@.len() - i,
    {
        let mut line = String::from_str("    - ");
        line.append(tools[i].tool.as_str());
        line.append("@");
        line.append(tools[i].version.as_str());
        push_line(ls, line);
        assert(tools@.take(i + 1) =~= tools@.take(i as int).push(tools@[i as int]));
        assert(tools@.take(i + 1).map_values(
            |t: EnvironmentToolProjection| "    - "@ + t.tool@ + "@"@ + t.version@,
        ) =~= tools@.take(i as int).map_values(
            |t: EnvironmentToolProjection| "    - "@ + t.tool@ + "@"@ + t.version@,
        ).push(line@));
        i = i + 1;
    }
    assert(tools@.take(tools@.len() as int) =~= tools@);
}

fn push_languages(ls: &mut Vec<String>, languages: &Vec<LanguageProjection>)
    ensures
        string_views(final(ls)@) == string_views(old(ls)@) + language_lines(languages@),
{
    let ghost start = string_views(ls@);
    let mut k: usize = 0;
    while k < languages.len()
        invariant
            k <= languages@.len(),
            string_views(ls@) == start + language_lines(languages@.take(k as int)),
        decreases languages@.len() - k,
    {
        proof {
            assert(languages@.take(k + 1).drop_last() =~= languages@.take(k as int));
            assert(languages@.take(k + 1).last() == languages@[k as int]);
        }
        let l = &languages[k];
        push_str(ls, "");
        let mut line = String::from_str("language: ");
        line.append(l.language.as_str());
        push_line(ls, line);
        push_str(ls, "  roots:");
        push_items(ls, &l.roots, "    ");
        push_str(ls, "  signals:");
        push_signals(ls, &l.signals);
        k = k + 1;
    }
    assert(languages@.take(languages@.len() as int) =~= languages@);
}

fn push_warnings(ls: &mut Vec<String>, warnings: &Vec<PolicyWarning>)
    ensures
        string_views(final(ls)@) == string_views(old(ls)@) + warning_lines(warnings@),
{
    if warnings.len() == 0 {
        push_str(ls, "  none");
        return;
    }
    let ghost start = string_views(ls@);
    let mut w: usize = 0;
    while w < warnings.len()
        invariant
            w <= warnings@.len(),
            string_views(ls@) == start + warnings@.take(w as int).map_values(
                |w: PolicyWarning| "  - ["@ + w.code@ + "] "@ + w.policy_path@ + ": "@ + w.message@,
            ),
        decreases warnings@.len() - w,
    {
        let pw = &warnings[w];
        let mut line = String::from_str("  - [");
        line.append(pw.code.as_str());
        line.append("] ");
        line.append(pw.policy_path.as_str());
        line.append(": ");
        line.append(pw.message.as_str());
        push_line(ls, line);
        assert(warnings@.take(w + 1) =~= warnings@.take(w as int).push(warnings@[w as int]));
        assert(warnings@.take(w + 1).map_values(
            |w: PolicyWarning| "  - ["@ + w.code@ + "] "@ + w.policy_path@ + ": "@ + w.message@,
        ) =~= warnings@.take(w as int).map_values(
            |w: PolicyWarning| "  - ["@ + w.code@ + "] "@ + w.policy_path@ + ": "@ + w.message@,
        ).push(line@));
        w = w + 1;
    }
    assert(warnings@.take(warnings@.len() as int) =~= warnings@);
}

/// The contract for people to read.
pub fn render_human(projection: &ContractProjection) -> (r: String)
    ensures
        r@ == lines_text(contract_lines(*projection)),
{
    let mut ls: Vec<String> = Vec::new();
    push_environment(&mut ls, projection);
    push_languages(&mut ls, &projection.languages);
    push_str(&mut ls, "");
    push_str(&mut ls, "warnings:");
    push_warnings(&mut ls, &projection.warnings);
    assert(string_views(ls@) =~= contract_lines(*projection));
    write_lines(&ls)
}

} // verus!
