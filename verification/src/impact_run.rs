//! Planning and running an impact plan: the checks that a contract or
//! environment change forces, and how collected rows and managed results are
//! held to the plan.
use crate::contract::{debug_quoted, debug_text};
use crate::evidence::{ChangedPath, Scope};
use crate::impact::UncertaintyKind;
use crate::operations::{outcome_exit_code, spec_outcome_exit_code, ApplicationError, ApplicationErrorKind, RunOutcome};
use crate::selection::{
    check_views, opt_string_view, reason_view, root_check, uncertainty_views, CheckView,
    ImpactConfidence, ImpactContribution, ImpactReason, ImpactReasonKind, ImpactUncertainty, SelectedCheck,
};
use crate::signals::concat;
use crate::text::{decimal, str_eq, string_views, u64_to_decimal};
use crate::vocabulary::{signal_kind_slug, spec_signal_slug, Language, SignalKind};
use vstd::prelude::*;

verus! {

/// The part of a collected signal row that names the check it answers.
pub struct RowIdentity {
    pub language: Language,
    pub kind: SignalKind,
    pub scope: Scope,
}

/// A problem met while running a plan, tied to a check where there is one.
pub struct ExecutionIssue {
    pub check: Option<SelectedCheck>,
    pub message: String,
}

/// What identifies a row: its language, signal and scope.
pub struct RowKey {
    pub language: Language,
    pub kind: SignalKind,
    pub workspace_root: Seq<char>,
    pub path: Option<Seq<char>>,
    pub package: Option<Seq<char>>,
    pub file: Option<Seq<char>>,
}

pub open spec fn row_key(r: RowIdentity) -> RowKey {
    RowKey {
        language: r.language,
        kind: r.kind,
        workspace_root: r.scope.workspace_root@,
        path: opt_string_view(r.scope.path),
        package: opt_string_view(r.scope.package),
        file: opt_string_view(r.scope.file),
    }
}

/// A row of the whole repository carries no path; any other configured
/// root is the row's path.
pub open spec fn expected_scope_path(configured_root: Seq<char>) -> Option<Seq<char>> {
    if configured_root == "."@ {
        None
    } else {
        Some(configured_root)
    }
}

/// The key of the row that answers `check`, collected under
/// `workspace_root`.
pub open spec fn check_key(check: CheckView, workspace_root: Seq<char>) -> RowKey {
    RowKey {
        language: check.language,
        kind: check.signal,
        workspace_root,
        path: expected_scope_path(check.configured_root),
        package: check.package,
        file: check.file,
    }
}

pub open spec fn spec_row_matches(check: CheckView, row: RowIdentity, workspace_root: Seq<char>) -> bool {
    check_key(check, workspace_root) == row_key(row)
}

fn opt_eq(a: &Option<String>, b: &Option<String>) -> (r: bool)
    ensures
        r == (opt_string_view(*a) == opt_string_view(*b)),
{
    match (a, b) {
        (Some(x), Some(y)) => str_eq(x.as_str(), y.as_str()),
        (None, None) => true,
        _ => false,
    }
}

/// Whether `row` is the row that answers `check` when collected under
/// `expected_workspace_root`.
pub fn signal_row_matches(check: &SelectedCheck, row: &RowIdentity, expected_workspace_root: &str) -> (r: bool)
    ensures
        r == spec_row_matches(check@, *row, expected_workspace_root@),
{
    let path_ok = if str_eq(check.configured_root.as_str(), ".") {
        row.scope.path.is_none()
    } else {
        match &row.scope.path {
            Some(p) => str_eq(p.as_str(), check.configured_root.as_str()),
            None => false,
        }
    };
    row.language == check.language && row.kind == check.signal && str_eq(
        row.scope.workspace_root.as_str(),
        expected_workspace_root,
    ) && path_ok && opt_eq(&row.scope.package, &check.package) && opt_eq(
        &row.scope.file,
        &check.file,
    )
}

pub open spec fn debug_opt(o: Option<Seq<char>>) -> Seq<char> {
    match o {
        Some(s) => "Some("@ + debug_text(s) + ")"@,
        None => "None"@,
    }
}

fn debug_option(o: &Option<String>) -> (r: String)
    ensures
        r@ == debug_opt(opt_string_view(*o)),
{
    match o {
        Some(s) => {
            let mut out = String::from_str("Some(");
            let q = debug_quoted(s.as_str());
            out.append(q.as_str());
            out.append(")");
            out
        },
        None => String::from_str("None"),
    }
}

/// The message that refuses a row which does not answer its check.
pub open spec fn mismatch_message(check: CheckView, row: RowIdentity, workspace_root: Seq<char>) -> Seq<char> {
    "impact execution returned a row that does not match its selected check (expected language="@
        + check.language.spec_name() + ", signal="@ + spec_signal_slug(check.signal)
        + ", workspace_root="@ + workspace_root + ", root="@ + check.configured_root + ", package="@
        + debug_opt(check.package) + ", file="@ + debug_opt(check.file) + "; got language="@
        + row.language.spec_name() + ", signal="@ + spec_signal_slug(row.kind) + ", workspace_root="@
        + row.scope.workspace_root@ + ", root="@ + debug_opt(opt_string_view(row.scope.path))
        + ", package="@ + debug_opt(opt_string_view(row.scope.package)) + ", file="@ + debug_opt(
        opt_string_view(row.scope.file),
    ) + ")"@
}

/// Accepts a row only when it answers its check; otherwise says what was
/// expected and what came back.
pub fn reconcile_signal_row(check: &SelectedCheck, row: &RowIdentity, expected_workspace_root: &str) -> (r: Result<(), String>)
    ensures
        r is Ok <==> spec_row_matches(check@, *row, expected_workspace_root@),
        r matches Err(m) ==> m@ == mismatch_message(check@, *row, expected_workspace_root@),
{
    if signal_row_matches(check, row, expected_workspace_root) {
        return Ok(());
    }
    let mut m = String::from_str(
        "impact execution returned a row that does not match its selected check (expected language=",
    );
    m.append(check.language.as_str());
    m.append(", signal=");
    m.append(signal_kind_slug(check.signal));
    m.append(", workspace_root=");
    m.append(expected_workspace_root);
    m.append(", root=");
    m.append(check.configured_root.as_str());
    m.append(", package=");
    m.append(debug_option(&check.package).as_str());
    m.append(", file=");
    m.append(debug_option(&check.file).as_str());
    m.append("; got language=");
    m.append(row.language.as_str());
    m.append(", signal=");
    m.append(signal_kind_slug(row.kind));
    m.append(", workspace_root=");
    m.append(row.scope.workspace_root.as_str());
    m.append(", root=");
    m.append(debug_option(&row.scope.path).as_str());
    m.append(", package=");
    m.append(debug_option(&row.scope.package).as_str());
    m.append(", file=");
    m.append(debug_option(&row.scope.file).as_str());
    m.append(")");
    Err(m)
}

pub open spec fn count_key(keys: Seq<RowKey>, k: RowKey) -> nat
    decreases keys.len(),
{
    if keys.len() == 0 {
        0
    } else {
        count_key(keys.drop_last(), k) + if keys.last() == k {
            1nat
        } else {
            0nat
        }
    }
}

pub open spec fn row_keys(rows: Seq<RowIdentity>) -> Seq<RowKey> {
    rows.map_values(|r: RowIdentity| row_key(r))
}

pub open spec fn check_keys(checks: Seq<SelectedCheck>, workspace_root: Seq<char>) -> Seq<RowKey> {
    checks.map_values(|c: SelectedCheck| check_key(c@, workspace_root))
}

/// Each row answers its own planned check: no key occurs among the rows
/// more often than among the checks.
pub open spec fn rows_fit_plan(checks: Seq<SelectedCheck>, rows: Seq<RowIdentity>, workspace_root: Seq<char>) -> bool {
    forall|k: RowKey|
        #[trigger] count_key(row_keys(rows), k) <= count_key(check_keys(checks, workspace_root), k)
}

proof fn lemma_count_positive(keys: Seq<RowKey>, k: RowKey)
    requires
        count_key(keys, k) > 0,
    ensures
        exists|i: int| 0 <= i < keys.len() && keys[i] == k,
    decreases keys.len(),
{
    if keys.last() != k {
        lemma_count_positive(keys.drop_last(), k);
        let i = choose|i: int| 0 <= i < keys.drop_last().len() && keys.drop_last()[i] == k;
        assert(keys[i] == k);
    } else {
        assert(keys[keys.len() - 1] == k);
    }
}

fn same_row_key(a: &RowIdentity, b: &RowIdentity) -> (r: bool)
    ensures
        r == (row_key(*a) == row_key(*b)),
{
    a.language == b.language && a.kind == b.kind && str_eq(a.scope.workspace_root.as_str(), b.scope.workspace_root.as_str())
        && opt_eq(&a.scope.path, &b.scope.path) && opt_eq(&a.scope.package, &b.scope.package) && opt_eq(
        &a.scope.file,
        &b.scope.file,
    )
}

fn count_rows_like(rows: &Vec<RowIdentity>, row: &RowIdentity) -> (r: usize)
    ensures
        r == count_key(row_keys(rows@), row_key(*row)),
{
    let mut n: usize = 0;
    let mut j: usize = 0;
    while j < rows.len()
        invariant
            j <= rows@.len(),
            n <= j,
            n == count_key(row_keys(rows@.take(j as int)), row_key(*row)),
        decreases rows@.len() - j,
    {
        proof {
            assert(row_keys(rows@.take(j + 1)).drop_last() =~= row_keys(rows@.take(j as int)));
        }
        if same_row_key(&rows[j], row) {
            n = n + 1;
        }
        j = j + 1;
    }
    assert(rows@.take(rows@.len() as int) =~= rows@);
    n
}

fn count_checks_for(checks: &Vec<SelectedCheck>, row: &RowIdentity, expected_workspace_root: &str) -> (r: usize)
    ensures
        r == count_key(check_keys(checks@, expected_workspace_root@), row_key(*row)),
{
    let mut n: usize = 0;
    let mut j: usize = 0;
    while j < checks.len()
        invariant
            j <= checks@.len(),
            n <= j,
            n == count_key(check_keys(checks@.take(j as int), expected_workspace_root@), row_key(*row)),
        decreases checks@.len() - j,
    {
        proof {
            assert(check_keys(checks@.take(j + 1), expected_workspace_root@).drop_last() =~= check_keys(
                checks@.take(j as int),
                expected_workspace_root@,
            ));
        }
        if signal_row_matches(&checks[j], row, expected_workspace_root) {
            n = n + 1;
        }
        j = j + 1;
    }
    assert(checks@.take(checks@.len() as int) =~= checks@);
    n
}

/// A managed run is held to its plan: every row it returns must answer a
/// planned check of its own, collected under `/workspace`.
pub fn validate_managed_rows(checks: &Vec<SelectedCheck>, rows: &Vec<RowIdentity>) -> (r: Result<(), String>)
    ensures
        r is Ok <==> rows_fit_plan(checks@, rows@, "/workspace"@),
        r matches Err(m) ==> m@ == "managed impact evidence contains a duplicate or unplanned signal row"@,
{
    let mut i: usize = 0;
    while i < rows.len()
        invariant
            i <= rows@.len(),
            forall|k: int|
                0 <= k < i ==> count_key(row_keys(rows@), #[trigger] row_key(rows@[k])) <= count_key(
                    check_keys(checks@, "/workspace"@),
                    row_key(rows@[k]),
                ),
        decreases rows@.len() - i,
    {
        let seen = count_rows_like(rows, &rows[i]);
        let planned = count_checks_for(checks, &rows[i], "/workspace");
        if seen > planned {
            return Err(String::from_str("managed impact evidence contains a duplicate or unplanned signal row"));
        }
        i = i + 1;
    }
    proof {
        assert forall|k: RowKey|
            #[trigger] count_key(row_keys(rows@), k) <= count_key(check_keys(checks@, "/workspace"@), k) by {
            if count_key(row_keys(rows@), k) > 0 {
                lemma_count_positive(row_keys(rows@), k);
                let j = choose|j: int| 0 <= j < row_keys(rows@).len() && row_keys(rows@)[j] == k;
                assert(row_key(rows@[j]) == k);
            }
        }
    }
    Ok(())
}

fn same_reasons(a: &Vec<ImpactReason>, b: &Vec<ImpactReason>) -> (r: bool)
    ensures
        r == (a@.map_values(|x: ImpactReason| reason_view(x)) == b@.map_values(|x: ImpactReason| reason_view(x))),
{
    let ghost va = a@.map_values(|x: ImpactReason| reason_view(x));
    let ghost vb = b@.map_values(|x: ImpactReason| reason_view(x));
    if a.len() != b.len() {
        assert(va.len() != vb.len());
        return false;
    }
    let mut i: usize = 0;
    while i < a.len()
        invariant
            i <= a@.len(),
            a@.len() == b@.len(),
            va == a@.map_values(|x: ImpactReason| reason_view(x)),
            vb == b@.map_values(|x: ImpactReason| reason_view(x)),
            forall|k: int| 0 <= k < i ==> va[k] == vb[k],
        decreases a@.len() - i,
    {
        if a[i].kind != b[i].kind || !str_eq(a[i].detail.as_str(), b[i].detail.as_str()) {
            assert(va[i as int] != vb[i as int]);
            return false;
        }
        i = i + 1;
    }
    assert(va =~= vb);
    true
}

/// Whether two selected checks are the same check, reasons included.
pub fn same_check(a: &SelectedCheck, b: &SelectedCheck) -> (r: bool)
    ensures
        r == (a@ == b@),
{
    a.language == b.language && str_eq(a.configured_root.as_str(), b.configured_root.as_str()) && opt_eq(&a.package, &b.package)
        && opt_eq(&a.file, &b.file) && a.signal == b.signal && same_reasons(&a.reasons, &b.reasons)
        && a.confidence == b.confidence
}

fn plan_contains(checks: &Vec<SelectedCheck>, check: &SelectedCheck) -> (r: bool)
    ensures
        r == check_views(checks@).contains(check@),
{
    let mut i: usize = 0;
    while i < checks.len()
        invariant
            i <= checks@.len(),
            forall|k: int| 0 <= k < i ==> check_views(checks@)[k] != check@,
        decreases checks@.len() - i,
    {
        if same_check(&checks[i], check) {
            assert(check_views(checks@)[i as int] == check@);
            return true;
        }
        i = i + 1;
    }
    false
}

/// Some issue names a check that the plan did not select.
pub open spec fn has_unplanned_issue(checks: Seq<SelectedCheck>, issues: Seq<ExecutionIssue>) -> bool {
    exists|i: int|
        0 <= i < issues.len() && ((#[trigger] issues[i]).check matches Some(c) && !check_views(checks).contains(
            c@,
        ))
}

/// A managed run may only report issues of planned checks.
pub fn validate_managed_issues(checks: &Vec<SelectedCheck>, issues: &Vec<ExecutionIssue>) -> (r: Result<(), String>)
    ensures
        r is Ok <==> !has_unplanned_issue(checks@, issues@),
        r matches Err(m) ==> m@ == "managed impact evidence contains an issue for an unplanned check"@,
{
    let mut i: usize = 0;
    while i < issues.len()
        invariant
            i <= issues@.len(),
            forall|k: int|
                0 <= k < i ==> !((#[trigger] issues@[k]).check matches Some(c) && !check_views(checks@).contains(
                    c@,
                )),
        decreases issues@.len() - i,
    {
        match &issues[i].check {
            Some(c) => {
                if !plan_contains(checks, c) {
                    return Err(String::from_str("managed impact evidence contains an issue for an unplanned check"));
                }
            },
            None => {},
        }
        i = i + 1;
    }
    Ok(())
}

/// The issue recorded when the checkout changed while the plan ran.
pub fn candidate_drift_issue() -> (r: ExecutionIssue)
    ensures
        r.check is None,
        r.message@ == "impact candidate changed during execution; rerun impact against a stable checkout"@,
{
    ExecutionIssue {
        check: None,
        message: String::from_str("impact candidate changed during execution; rerun impact against a stable checkout"),
    }
}

/// Refuses to go on once the run was cancelled.
pub fn ensure_not_cancelled(cancelled: bool, operation: &str) -> (r: Result<(), ApplicationError>)
    ensures
        r is Ok <==> !cancelled,
        r matches Err(e) ==> e.kind == ApplicationErrorKind::Execution && e.message@ == operation@
            + " aborted by Ctrl-C"@,
{
    if cancelled {
        Err(ApplicationError::execution(concat(operation, " aborted by Ctrl-C")))
    } else {
        Ok(())
    }
}

/// Whether a change touches `path`, as its new or its previous path.
pub open spec fn spec_change_touches(change: ChangedPath, path: Seq<char>) -> bool {
    change.path@ == path || opt_string_view(change.previous_path) == Some(path)
}

pub fn change_touches(change: &ChangedPath, path: &str) -> (r: bool)
    ensures
        r == spec_change_touches(*change, path@),
{
    str_eq(change.path.as_str(), path) || match &change.previous_path {
        Some(p) => str_eq(p.as_str(), path),
        None => false,
    }
}

/// Whether any change touches `path`.
pub fn changes_touch(changes: &Vec<ChangedPath>, path: &str) -> (r: bool)
    ensures
        r == exists|i: int| 0 <= i < changes@.len() && spec_change_touches(#[trigger] changes@[i], path@),
{
    let mut i: usize = 0;
    while i < changes.len()
        invariant
            i <= changes@.len(),
            forall|k: int| 0 <= k < i ==> !spec_change_touches(#[trigger] changes@[k], path@),
        decreases changes@.len() - i,
    {
        if change_touches(&changes[i], path) {
            return true;
        }
        i = i + 1;
    }
    false
}

/// The reason for running every check of a root after the contract or the
/// environment lock changed; the contract wins when both did.
pub open spec fn governed_reason(contract_changed: bool, config_path: Seq<char>) -> (ImpactReasonKind, Seq<char>) {
    if contract_changed {
        (ImpactReasonKind::ContractChanged, config_path + " changed and invalidates governed checks"@)
    } else {
        (ImpactReasonKind::EnvironmentChanged, ".ayni.lock changed and invalidates runtime checks"@)
    }
}

/// Every enabled signal at the configured root, certain, for the reason of
/// `governed_reason`.
pub fn governed_broadening(
    language: Language,
    configured_root: &str,
    signals: &Vec<SignalKind>,
    contract_changed: bool,
    config_path: &str,
) -> (r: Vec<SelectedCheck>)
    ensures
        check_views(r@) == signals@.map_values(
            |s: SignalKind|
                root_check(
                    language,
                    configured_root@,
                    s,
                    governed_reason(contract_changed, config_path@),
                    ImpactConfidence::Certain,
                ),
        ),
{
    let mut out: Vec<SelectedCheck> = Vec::new();
    let mut i: usize = 0;
    while i < signals.len()
        invariant
            i <= signals@.len(),
            check_views(out@) == signals@.take(i as int).map_values(
                |s: SignalKind|
                    root_check(
                        language,
                        configured_root@,
                        s,
                        governed_reason(contract_changed, config_path@),
                        ImpactConfidence::Certain,
                    ),
            ),
        decreases signals@.len() - i,
    {
        let reason = if contract_changed {
            ImpactReason {
                kind: ImpactReasonKind::ContractChanged,
                detail: concat(config_path, " changed and invalidates governed checks"),
            }
        } else {
            ImpactReason {
                kind: ImpactReasonKind::EnvironmentChanged,
                detail: String::from_str(".ayni.lock changed and invalidates runtime checks"),
            }
        };
        let c = SelectedCheck::root(
            language,
            String::from_str(configured_root),
            signals[i],
            reason,
            ImpactConfidence::Certain,
        );
        let ghost before = check_views(out@);
        let ghost cv = c@;
        out.push(c);
        assert(check_views(out@) =~= before.push(cv));
        assert(signals@.take(i + 1) =~= signals@.take(i as int).push(signals@[i as int]));
        i = i + 1;
    }
    assert(signals@.take(signals@.len() as int) =~= signals@);
    out
}

/// When a language cannot map the changes, the configured root runs every
/// enabled signal with unknown confidence, and the adapter's message is
/// kept as an uncertainty.
pub fn unsupported_broadening(
    language: Language,
    configured_root: &str,
    signals: &Vec<SignalKind>,
    message: &str,
) -> (r: (ImpactUncertainty, Vec<SelectedCheck>))
    ensures
        r.0.kind == UncertaintyKind::Unsupported,
        r.0.detail@ == language.spec_name() + ":"@ + configured_root@ + " impact mapping broadened: "@ + message@,
        check_views(r.1@) == signals@.map_values(
            |s: SignalKind|
                root_check(
                    language,
                    configured_root@,
                    s,
                    (
                        ImpactReasonKind::UnsupportedCapability,
                        "unsupported impact mapping requires configured-root execution"@,
                    ),
                    ImpactConfidence::Unknown,
                ),
        ),
{
    let mut detail = String::from_str(language.as_str());
    detail.append(":");
    detail.append(configured_root);
    detail.append(" impact mapping broadened: ");
    detail.append(message);
    let ghost reason = (
        ImpactReasonKind::UnsupportedCapability,
        "unsupported impact mapping requires configured-root execution"@,
    );
    let mut out: Vec<SelectedCheck> = Vec::new();
    let mut i: usize = 0;
    while i < signals.len()
        invariant
            i <= signals@.len(),
            reason == (
                ImpactReasonKind::UnsupportedCapability,
                "unsupported impact mapping requires configured-root execution"@,
            ),
            check_views(out@) == signals@.take(i as int).map_values(
                |s: SignalKind| root_check(language, configured_root@, s, reason, ImpactConfidence::Unknown),
            ),
        decreases signals@.len() - i,
    {
        let c = SelectedCheck::root(
            language,
            String::from_str(configured_root),
            signals[i],
            ImpactReason {
                kind: ImpactReasonKind::UnsupportedCapability,
                detail: String::from_str("unsupported impact mapping requires configured-root execution"),
            },
            ImpactConfidence::Unknown,
        );
        let ghost before = check_views(out@);
        let ghost cv = c@;
        out.push(c);
        assert(check_views(out@) =~= before.push(cv));
        assert(signals@.take(i + 1) =~= signals@.take(i as int).push(signals@[i as int]));
        i = i + 1;
    }
    assert(signals@.take(signals@.len() as int) =~= signals@);
    (ImpactUncertainty { kind: UncertaintyKind::Unsupported, detail }, out)
}

/// Whether an impact run failed on quality and whether it was incomplete.
pub fn impact_outcome_flags(outcome: RunOutcome) -> (r: (bool, bool))
    ensures
        r == (match outcome {
            RunOutcome::Passed => (false, false),
            RunOutcome::QualityFailed => (true, false),
            RunOutcome::ExecutionIncomplete => (false, true),
        }),
{
    match outcome {
        RunOutcome::Passed => (false, false),
        RunOutcome::QualityFailed => (true, false),
        RunOutcome::ExecutionIncomplete => (false, true),
    }
}

/// A path given as its components, with whether it starts at the root.
pub struct PathParts {
    pub absolute: bool,
    pub components: Vec<String>,
}

pub open spec fn is_private_result(c: Seq<Seq<char>>) -> bool {
    &&& c.len() == 4
    &&& c[0] == ".ayni"@
    &&& c[1] == "impact"@
    &&& c[2] == "pending"@
    &&& crate::text::starts_with(c[3], "impact-"@)
    &&& crate::text::ends_with(c[3], ".json"@)
}

/// Where a managed run leaves its provisional result: a repository-relative
/// `.ayni/impact/pending/impact-*.json`, given back joined by `/`.
pub fn managed_result_relative_path(path: &Option<PathParts>) -> (r: Result<String, ApplicationError>)
    ensures
        match path {
            None => r matches Err(e) && e.kind == ApplicationErrorKind::InvalidInput && e.message@
                == "managed impact execution requires a provisional result path"@,
            Some(p) => if p.absolute {
                r matches Err(e) && e.kind == ApplicationErrorKind::InvalidInput && e.message@
                    == "managed impact result must be a repository-relative path"@
            } else if !is_private_result(string_views(p.components@)) {
                r matches Err(e) && e.kind == ApplicationErrorKind::InvalidInput && e.message@
                    == "managed impact result must be a normalized private impact path"@
            } else {
                r matches Ok(s) && s@ == crate::text::join(string_views(p.components@), "/"@)
            },
        },
{
    let p = match path {
        None => {
            return Err(ApplicationError::input(String::from_str("managed impact execution requires a provisional result path")));
        },
        Some(p) => p,
    };
    if p.absolute {
        return Err(ApplicationError::input(String::from_str("managed impact result must be a repository-relative path")));
    }
    let c = &p.components;
    let ghost views = string_views(c@);
    let valid = c.len() == 4 && str_eq(c[0].as_str(), ".ayni") && str_eq(c[1].as_str(), "impact") && str_eq(c[2].as_str(), "pending")
        && crate::text::chars_start_with(&crate::text::chars_of(c[3].as_str()), &crate::text::chars_of("impact-"))
        && crate::text::chars_end_with(&crate::text::chars_of(c[3].as_str()), &crate::text::chars_of(".json"));
    proof {
        assert(views.len() == c@.len());
        if c@.len() == 4 {
            assert(views[0] == c@[0]@);
            assert(views[1] == c@[1]@);
            assert(views[2] == c@[2]@);
            assert(views[3] == c@[3]@);
        }
    }
    if !valid {
        return Err(ApplicationError::input(String::from_str("managed impact result must be a normalized private impact path")));
    }
    let mut joined = String::from_str(c[0].as_str());
    joined.append("/");
    joined.append(c[1].as_str());
    joined.append("/");
    joined.append(c[2].as_str());
    joined.append("/");
    joined.append(c[3].as_str());
    proof {
        reveal_with_fuel(crate::text::join, 5);
        assert(views.drop_last() =~= seq![views[0], views[1], views[2]]);
        assert(views.drop_last().drop_last() =~= seq![views[0], views[1]]);
        assert(views.drop_last().drop_last().drop_last() =~= seq![views[0]]);
    }
    Ok(joined)
}

/// The one path a managed run reads its plan from.
pub open spec fn is_reserved_handoff(p: PathParts) -> bool {
    p.absolute && string_views(p.components@) == seq!["opt"@, "ayni"@, "inputs"@, "impact-plan.json"@]
}

/// A managed handoff is only taken inside a managed environment (one that
/// carries a lock fingerprint) and only from the reserved read-only path.
pub fn validate_managed_handoff_invocation(managed_environment: bool, handoff: &PathParts) -> (r: Result<(), ApplicationError>)
    ensures
        !managed_environment ==> (r matches Err(e) && e.kind == ApplicationErrorKind::InvalidInput && e.message@
            == "--managed-handoff is reserved for managed environment execution"@),
        managed_environment && !is_reserved_handoff(*handoff) ==> (r matches Err(e) && e.kind
            == ApplicationErrorKind::InvalidInput && e.message@
            == "managed impact handoff must use the reserved read-only input path"@),
        managed_environment && is_reserved_handoff(*handoff) ==> r is Ok,
{
    if !managed_environment {
        return Err(ApplicationError::input(String::from_str("--managed-handoff is reserved for managed environment execution")));
    }
    let c = &handoff.components;
    let reserved = handoff.absolute && c.len() == 4 && str_eq(c[0].as_str(), "opt") && str_eq(c[1].as_str(), "ayni")
        && str_eq(c[2].as_str(), "inputs") && str_eq(c[3].as_str(), "impact-plan.json");
    proof {
        let views = string_views(c@);
        assert(views.len() == c@.len());
        if c@.len() == 4 {
            assert(views[0] == c@[0]@);
            assert(views[1] == c@[1]@);
            assert(views[2] == c@[2]@);
            assert(views[3] == c@[3]@);
            if reserved {
                assert(views =~= seq!["opt"@, "ayni"@, "inputs"@, "impact-plan.json"@]);
            }
        }
    }
    if !reserved {
        return Err(ApplicationError::input(String::from_str("managed impact handoff must use the reserved read-only input path")));
    }
    Ok(())
}

/// `n` written in decimal, with a leading `-` when negative.
pub open spec fn signed_decimal(n: int) -> Seq<char> {
    if n < 0 {
        "-"@ + decimal((-n) as nat)
    } else {
        decimal(n as nat)
    }
}

fn i32_to_decimal(n: i32) -> (r: String)
    ensures
        r@ == signed_decimal(n as int),
{
    if n < 0 {
        let m: i64 = -(n as i64);
        let mut s = String::from_str("-");
        s.append(u64_to_decimal(m as u64).as_str());
        s
    } else {
        u64_to_decimal(n as u64)
    }
}

/// A managed run's transport must agree with its evidence: the process
/// exits with the code that the evidence's outcome calls for, and JSON
/// output on stdout is byte for byte the evidence.
pub fn validate_managed_result_transport(
    json_output: bool,
    serialized: &[u8],
    outcome: RunOutcome,
    exit_code: i32,
    captured_stdout: &[u8],
) -> (r: Result<(), String>)
    ensures
        exit_code != spec_outcome_exit_code(outcome) ==> (r matches Err(m) && m@ == "managed impact exited with "@
            + signed_decimal(exit_code as int) + ", but its provisional evidence requires exit code "@
            + decimal(spec_outcome_exit_code(outcome) as nat)),
        exit_code == spec_outcome_exit_code(outcome) && json_output && captured_stdout@ != serialized@
            ==> (r matches Err(m) && m@ == "managed impact JSON output does not match its provisional evidence"@),
        exit_code == spec_outcome_exit_code(outcome) && (!json_output || captured_stdout@ == serialized@) ==> r is Ok,
{
    let expected = outcome_exit_code(outcome);
    if exit_code != expected as i32 {
        let mut m = String::from_str("managed impact exited with ");
        m.append(i32_to_decimal(exit_code).as_str());
        m.append(", but its provisional evidence requires exit code ");
        m.append(u64_to_decimal(expected as u64).as_str());
        return Err(m);
    }
    if json_output {
        let mut same = captured_stdout.len() == serialized.len();
        let mut i: usize = 0;
        while same && i < serialized.len()
            invariant
                i <= serialized@.len(),
                same ==> captured_stdout@.len() == serialized@.len(),
                same ==> forall|k: int| 0 <= k < i ==> captured_stdout@[k] == serialized@[k],
                !same ==> captured_stdout@ != serialized@,
            decreases serialized@.len() - i,
        {
            if captured_stdout[i] != serialized[i] {
                same = false;
            }
            i = i + 1;
        }
        if same {
            assert(captured_stdout@ =~= serialized@);
        }
        if !same {
            return Err(String::from_str("managed impact JSON output does not match its provisional evidence"));
        }
    }
    Ok(())
}

/// The checks every enabled signal runs at a configured root, certain,
/// after the contract or the environment lock changed.
pub open spec fn governed_checks(
    language: Language,
    configured_root: Seq<char>,
    signals: Seq<SignalKind>,
    contract_changed: bool,
    config_path: Seq<char>,
) -> Seq<CheckView> {
    signals.map_values(
        |s: SignalKind|
            root_check(
                language,
                configured_root,
                s,
                governed_reason(contract_changed, config_path),
                ImpactConfidence::Certain,
            ),
    )
}

/// The checks every enabled signal runs at a configured root, with unknown
/// confidence, when the language could not map the changes.
pub open spec fn unsupported_checks(language: Language, configured_root: Seq<char>, signals: Seq<SignalKind>) -> Seq<CheckView> {
    signals.map_values(
        |s: SignalKind|
            root_check(
                language,
                configured_root,
                s,
                (
                    ImpactReasonKind::UnsupportedCapability,
                    "unsupported impact mapping requires configured-root execution"@,
                ),
                ImpactConfidence::Unknown,
            ),
    )
}

/// The uncertainty that keeps a language's message when it could not map
/// the changes.
pub open spec fn unsupported_detail(language: Language, configured_root: Seq<char>, message: Seq<char>) -> Seq<char> {
    language.spec_name() + ":"@ + configured_root + " impact mapping broadened: "@ + message
}

/// What the impact plan selects for one configured root of a language:
/// - after the contract or the environment lock changed, every enabled
///   signal at the root, certain, and no uncertainty;
/// - otherwise what the language's analysis of the changes contributed;
/// - and when that analysis failed, every enabled signal at the root with
///   unknown confidence, and the failure as an `Unsupported` uncertainty.
/// `analysis` is only consulted when neither file changed.
pub fn plan_root_impact(
    language: Language,
    configured_root: &str,
    signals: &Vec<SignalKind>,
    contract_changed: bool,
    environment_changed: bool,
    config_path: &str,
    analysis: Result<ImpactContribution, String>,
) -> (r: (Vec<SelectedCheck>, Vec<ImpactUncertainty>))
    ensures
        contract_changed || environment_changed ==> check_views(r.0@) == governed_checks(
            language,
            configured_root@,
            signals@,
            contract_changed,
            config_path@,
        ) && r.1@.len() == 0,
        !(contract_changed || environment_changed) ==> match analysis {
            Ok(c) => r.0@ == c.selected_checks@ && r.1@ == c.uncertainties@,
            Err(m) => check_views(r.0@) == unsupported_checks(language, configured_root@, signals@) && r.1@.len()
                == 1 && r.1@[0].kind == UncertaintyKind::Unsupported && r.1@[0].detail@ == unsupported_detail(
                language,
                configured_root@,
                m@,
            ),
        },
{
    if contract_changed || environment_changed {
        let checks = governed_broadening(language, configured_root, signals, contract_changed, config_path);
        return (checks, Vec::new());
    }
    match analysis {
        Ok(c) => (c.selected_checks, c.uncertainties),
        Err(m) => {
            let (u, checks) = unsupported_broadening(language, configured_root, signals, m.as_str());
            let mut us: Vec<ImpactUncertainty> = Vec::new();
            us.push(u);
            (checks, us)
        },
    }
}

/// A problem met while running a plan, tied to the position of its check
/// in the plan where there is one.
pub struct RunIssue {
    pub check: Option<usize>,
    pub message: String,
}

pub open spec fn run_issue_view(i: RunIssue) -> (Option<usize>, Seq<char>) {
    (i.check, i.message@)
}

pub open spec fn opt_issue_view(o: Option<RunIssue>) -> Option<(Option<usize>, Seq<char>)> {
    match o {
        Some(i) => Some(run_issue_view(i)),
        None => None,
    }
}

/// Where a run of an impact plan stands.
#[derive(Clone, Copy, Debug, PartialEq, Eq, Structural)]
pub enum RunPhase {
    /// Waiting to hear whether the check at `next` can run.
    Running,
    /// The check at `next` is being collected.
    Collecting,
    /// Every check ran; the candidate is checked for drift.
    Verifying,
    Finished,
    Aborted,
}

/// The state of a run: its phase and the position of the next check.
#[derive(Clone, Copy, Debug, PartialEq, Eq, Structural)]
pub struct ImpactRunState {
    pub phase: RunPhase,
    pub next: usize,
}

/// A collected row: what it answers, the workspace root its check was
/// collected under, and the message of a command that failed to execute.
pub struct CollectedRow {
    pub row: RowIdentity,
    pub expected_workspace_root: String,
    pub command_failure: Option<String>,
}

/// What the runner reports back.
pub enum ImpactRunEvent {
    /// Before the next check: whether the run was cancelled, and whether the
    /// check's configured target was detected and resolved.
    Ready { cancelled: bool, target_detected: bool },
    /// The outcome of collecting the check: its row, or why collection
    /// stopped short.
    Collected(Result<CollectedRow, String>),
    /// After every check: whether the run was cancelled, and whether the
    /// checkout or the plan changed while it ran.
    CandidateChecked { cancelled: bool, drifted: bool },
}

/// What the runner does next.
pub enum ImpactRunAction {
    /// Collect the check at this position.
    Collect(usize),
    /// Record the issue, if any, and keep the collected row if asked; then
    /// report on the next check.
    Record { issue: Option<RunIssue>, keep_row: bool },
    /// Recompute the candidate and the plan, and report whether they drifted.
    VerifyCandidate,
    /// The run is over; record the issue, if any.
    Finish { issue: Option<RunIssue> },
    /// Stop with this error.
    Abort(ApplicationError),
}

pub enum ActionView {
    Collect(usize),
    Record(Option<(Option<usize>, Seq<char>)>, bool),
    VerifyCandidate,
    Finish(Option<(Option<usize>, Seq<char>)>),
    Abort(ApplicationErrorKind, Seq<char>),
}

pub open spec fn action_view(a: ImpactRunAction) -> ActionView {
    match a {
        ImpactRunAction::Collect(i) => ActionView::Collect(i),
        ImpactRunAction::Record { issue, keep_row } => ActionView::Record(opt_issue_view(issue), keep_row),
        ImpactRunAction::VerifyCandidate => ActionView::VerifyCandidate,
        ImpactRunAction::Finish { issue } => ActionView::Finish(opt_issue_view(issue)),
        ImpactRunAction::Abort(e) => ActionView::Abort(e.kind, e.message@),
    }
}

/// The event fits the phase: readiness while running, a collection while
/// collecting, the drift check while verifying; and the position is one of
/// the plan's (or just past its end, while running).
pub open spec fn step_allowed(plan: Seq<CheckView>, state: ImpactRunState, event: ImpactRunEvent) -> bool {
    match event {
        ImpactRunEvent::Ready { .. } => state.phase == RunPhase::Running && state.next <= plan.len(),
        ImpactRunEvent::Collected(_) => state.phase == RunPhase::Collecting && state.next < plan.len(),
        ImpactRunEvent::CandidateChecked { .. } => state.phase == RunPhase::Verifying,
    }
}

pub open spec fn cancelled_message() -> Seq<char> {
    "impact execution aborted by Ctrl-C"@
}

pub open spec fn not_detected_message() -> Seq<char> {
    "configured impact target was not detected or resolved"@
}

pub open spec fn drift_message() -> Seq<char> {
    "impact candidate changed during execution; rerun impact against a stable checkout"@
}

/// One step of running an impact plan:
/// - a cancelled run stops, before a check and after the last one;
/// - after the last check the candidate is checked for drift, and drift is
///   recorded as an issue of the run;
/// - a check whose target was not detected or resolved is recorded as an
///   issue and skipped;
/// - otherwise the check is collected; a collection that stopped short is
///   recorded as incomplete, a row that does not answer its check is
///   refused with what was expected and what came back, and a row whose
///   command failed to execute is kept with an issue that says so.
pub open spec fn spec_impact_run_step(plan: Seq<CheckView>, state: ImpactRunState, event: ImpactRunEvent) -> (ImpactRunState, ActionView) {
    let i = state.next;
    match event {
        ImpactRunEvent::Ready { cancelled, target_detected } => if cancelled {
            (
                ImpactRunState { phase: RunPhase::Aborted, next: i },
                ActionView::Abort(ApplicationErrorKind::Execution, cancelled_message()),
            )
        } else if i >= plan.len() {
            (ImpactRunState { phase: RunPhase::Verifying, next: i }, ActionView::VerifyCandidate)
        } else if !target_detected {
            (
                ImpactRunState { phase: RunPhase::Running, next: (i + 1) as usize },
                ActionView::Record(Some((Some(i), not_detected_message())), false),
            )
        } else {
            (ImpactRunState { phase: RunPhase::Collecting, next: i }, ActionView::Collect(i))
        },
        ImpactRunEvent::Collected(outcome) => {
            let after = ImpactRunState { phase: RunPhase::Running, next: (i + 1) as usize };
            match outcome {
                Err(e) => (after, ActionView::Record(Some((Some(i), "collection incomplete: "@ + e@)), false)),
                Ok(c) => if !spec_row_matches(plan[i as int], c.row, c.expected_workspace_root@) {
                    (
                        after,
                        ActionView::Record(
                            Some((Some(i), mismatch_message(plan[i as int], c.row, c.expected_workspace_root@))),
                            false,
                        ),
                    )
                } else {
                    match c.command_failure {
                        Some(m) => (
                            after,
                            ActionView::Record(
                                Some((Some(i), spec_signal_slug(plan[i as int].signal) + " failed to execute: "@ + m@)),
                                true,
                            ),
                        ),
                        None => (after, ActionView::Record(None, true)),
                    }
                },
            }
        },
        ImpactRunEvent::CandidateChecked { cancelled, drifted } => if cancelled {
            (
                ImpactRunState { phase: RunPhase::Aborted, next: i },
                ActionView::Abort(ApplicationErrorKind::Execution, cancelled_message()),
            )
        } else {
            (
                ImpactRunState { phase: RunPhase::Finished, next: i },
                ActionView::Finish(if drifted {
                    Some((None, drift_message()))
                } else {
                    None
                }),
            )
        },
    }
}

/// The state a run of a plan starts in.
pub fn impact_run_start() -> (r: ImpactRunState)
    ensures
        r == (ImpactRunState { phase: RunPhase::Running, next: 0 }),
{
    ImpactRunState { phase: RunPhase::Running, next: 0 }
}

/// Decides the next step of running `plan` from the state and what the
/// runner reported.
pub fn impact_run_step(plan: &Vec<SelectedCheck>, state: &ImpactRunState, event: ImpactRunEvent) -> (r: (
    ImpactRunState,
    ImpactRunAction,
))
    requires
        step_allowed(check_views(plan@), *state, event),
    ensures
        (r.0, action_view(r.1)) == spec_impact_run_step(check_views(plan@), *state, event),
{
    let i = state.next;
    let ghost pv = check_views(plan@);
    assert(pv.len() == plan@.len());
    let ghost ev = event;
    match event {
        ImpactRunEvent::Ready { cancelled, target_detected } => {
            if cancelled {
                return (
                    ImpactRunState { phase: RunPhase::Aborted, next: i },
                    ImpactRunAction::Abort(ApplicationError::execution(String::from_str("impact execution aborted by Ctrl-C"))),
                );
            }
            if i >= plan.len() {
                return (ImpactRunState { phase: RunPhase::Verifying, next: i }, ImpactRunAction::VerifyCandidate);
            }
            if !target_detected {
                return (
                    ImpactRunState { phase: RunPhase::Running, next: i + 1 },
                    ImpactRunAction::Record {
                        issue: Some(
                            RunIssue {
                                check: Some(i),
                                message: String::from_str("configured impact target was not detected or resolved"),
                            },
                        ),
                        keep_row: false,
                    },
                );
            }
            (ImpactRunState { phase: RunPhase::Collecting, next: i }, ImpactRunAction::Collect(i))
        },
        ImpactRunEvent::Collected(outcome) => {
            assert(ev is Collected);
            assert(i < plan.len());
            let after = ImpactRunState { phase: RunPhase::Running, next: i + 1 };
            match outcome {
                Err(e) => (
                    after,
                    ImpactRunAction::Record {
                        issue: Some(RunIssue { check: Some(i), message: concat("collection incomplete: ", e.as_str()) }),
                        keep_row: false,
                    },
                ),
                Ok(c) => {
                    let check = &plan[i];
                    assert(check@ == pv[i as int]);
                    match reconcile_signal_row(check, &c.row, c.expected_workspace_root.as_str()) {
                        Err(m) => (
                            after,
                            ImpactRunAction::Record { issue: Some(RunIssue { check: Some(i), message: m }), keep_row: false },
                        ),
                        Ok(()) => match c.command_failure {
                            Some(f) => {
                                let mut m = String::from_str(signal_kind_slug(check.signal));
                                m.append(" failed to execute: ");
                                m.append(f.as_str());
                                (
                                    after,
                                    ImpactRunAction::Record {
                                        issue: Some(RunIssue { check: Some(i), message: m }),
                                        keep_row: true,
                                    },
                                )
                            },
                            None => (after, ImpactRunAction::Record { issue: None, keep_row: true }),
                        },
                    }
                },
            }
        },
        ImpactRunEvent::CandidateChecked { cancelled, drifted } => {
            if cancelled {
                return (
                    ImpactRunState { phase: RunPhase::Aborted, next: i },
                    ImpactRunAction::Abort(ApplicationError::execution(String::from_str("impact execution aborted by Ctrl-C"))),
                );
            }
            let issue = if drifted {
                let d = candidate_drift_issue();
                Some(RunIssue { check: None, message: d.message })
            } else {
                None
            };
            (ImpactRunState { phase: RunPhase::Finished, next: i }, ImpactRunAction::Finish { issue })
        },
    }
}

/// Where an impact run keeps its evidence, relative to the repository.
pub const IMPACT_ARTIFACT: &'static str = ".ayni/impact/last/impact.json";

/// Reads `git check-ignore -q -- <artifact>`: the evidence may be kept only
/// when Git ignores it (the command succeeds); exit code 1 means it is not
/// ignored, any other failure is reported with Git's message (`stderr`,
/// trimmed by the caller).
pub fn artifact_ignored(success: bool, exit_code: Option<i32>, stderr: &str) -> (r: Result<(), ApplicationError>)
    ensures
        r is Ok <==> success,
        r matches Err(e) ==> e.kind == ApplicationErrorKind::InvalidInput && e.message@ == (if exit_code == Some(1i32) {
            ".ayni/ must be ignored before impact planning can persist evidence"@
        } else {
            "git check-ignore failed: "@ + stderr@
        }),
{
    if success {
        return Ok(());
    }
    if exit_code == Some(1i32) {
        return Err(ApplicationError::input(String::from_str(".ayni/ must be ignored before impact planning can persist evidence")));
    }
    Err(ApplicationError::input(concat("git check-ignore failed: ", stderr)))
}

} // verus!
