use ayni::evidence::{ChangeKind, ChangedPath, Scope};
use ayni::impact::{
    affected_packages, classify_path, contains_path, is_configuration_input,
    is_governing_rust_input, is_manifest, package_owners, path_depth, path_in_target,
    reverse_closure, Package, PackageImpact, PathImpact, UncertaintyKind,
};
use ayni::impact_run::{
    candidate_drift_issue, change_touches, changes_touch, ensure_not_cancelled,
    governed_broadening, impact_outcome_flags, managed_result_relative_path,
    reconcile_signal_row, signal_row_matches, unsupported_broadening, validate_managed_handoff_invocation,
    validate_managed_issues, validate_managed_result_transport, validate_managed_rows,
    artifact_ignored, impact_run_start, impact_run_step, plan_root_impact, CollectedRow, ExecutionIssue,
    ImpactRunAction, ImpactRunEvent, PathParts, RowIdentity, RunPhase,
};
use ayni::operations::{ApplicationErrorKind, RunOutcome};
use ayni::selection::{
    broad_contribution, rust_contribution, ImpactConfidence, ImpactContribution, ImpactReason,
    ImpactReasonKind, ImpactUncertainty, SelectedCheck,
};
use ayni::vocabulary::{Language, SignalKind};

fn package(name: &str, dir: &str, deps: &[&str]) -> Package {
    Package {
        name: String::from(name),
        dir: String::from(dir),
        deps: deps.iter().map(|d| String::from(*d)).collect(),
    }
}

fn modified(path: &str) -> ChangedPath {
    ChangedPath {
        kind: ChangeKind::Modified,
        path: String::from(path),
        previous_path: None,
    }
}

fn strings(values: &[&str]) -> Vec<String> {
    values.iter().map(|v| String::from(*v)).collect()
}

// The workspace of the fixture: a root package with members `a`, `b`
// (which reaches `a` through a workspace alias) and `c` (which depends on
// `b` by path), listed by package name as the topology lists them.
fn alias_workspace() -> Vec<Package> {
    vec![
        package("a", "a", &[]),
        package("b", "b", &["a"]),
        package("c", "c", &["b"]),
        package("root", ".", &[]),
    ]
}

#[test]
fn includes_transitive_reverse_dependents_and_prefers_deepest_owner() {
    let packages = alias_workspace();
    let changes = vec![modified("a/src/lib.rs")];
    let contribution = rust_contribution(
        "a",
        &vec![SignalKind::Test],
        &changes,
        &vec![true],
        &packages,
        &Vec::new(),
        ".",
    );
    let mut selected: Vec<&str> = contribution
        .selected_checks
        .iter()
        .filter_map(|check| check.package.as_deref())
        .collect();
    selected.sort();
    selected.dedup();
    assert_eq!(selected, vec!["a", "b", "c"]);
    assert!(contribution.uncertainties.is_empty());
}

#[test]
fn undeclared_descendant_source_broadens_instead_of_claiming_workspace_ownership() {
    let contribution = rust_contribution(
        ".",
        &vec![SignalKind::Test],
        &vec![modified("examples/demo/src/lib.rs")],
        &vec![false],
        &Vec::new(),
        &strings(&["examples/demo"]),
        ".",
    );
    assert_eq!(contribution.selected_checks.len(), 1);
    assert_eq!(contribution.uncertainties[0].kind, UncertaintyKind::UnknownPathOwnership);
}

#[test]
fn configuration_change_broadens_every_signal() {
    let contribution = rust_contribution(
        ".",
        &vec![SignalKind::Test, SignalKind::Complexity],
        &vec![modified(".cargo/config.toml")],
        &vec![false],
        &Vec::new(),
        &Vec::new(),
        ".",
    );
    assert_eq!(contribution.selected_checks.len(), 2);
    assert_eq!(contribution.uncertainties[0].kind, UncertaintyKind::ConfigurationChanged);
    assert!(contribution
        .selected_checks
        .iter()
        .all(|check| check.package.is_none() && check.file.is_none()));
}

#[test]
fn ancestor_runtime_change_broadens_a_nested_workspace() {
    let contribution = rust_contribution(
        "projects",
        &vec![SignalKind::Test, SignalKind::Size],
        &vec![modified("rust-toolchain.toml")],
        &vec![true],
        &Vec::new(),
        &Vec::new(),
        "projects",
    );
    assert_eq!(contribution.selected_checks.len(), 2);
    assert_eq!(contribution.uncertainties[0].kind, UncertaintyKind::ConfigurationChanged);
}

#[test]
fn manifest_change_broadens_every_signal() {
    let contribution = rust_contribution(
        ".",
        &vec![SignalKind::Test, SignalKind::Size],
        &vec![modified("Cargo.toml")],
        &vec![true],
        &Vec::new(),
        &Vec::new(),
        ".",
    );
    assert_eq!(contribution.selected_checks.len(), 2);
    assert!(contribution
        .selected_checks
        .iter()
        .all(|check| check.package.is_none() && check.file.is_none()));
    assert_eq!(contribution.uncertainties[0].kind, UncertaintyKind::TopologyChanged);
}

#[test]
fn package_checks_follow_the_closure_in_name_order_and_files_get_their_own() {
    let packages = vec![
        package("alpha", "alpha", &[]),
        package("zeta", "zeta", &["alpha"]),
    ];
    let signals = vec![
        SignalKind::Test,
        SignalKind::Coverage,
        SignalKind::Size,
        SignalKind::Complexity,
    ];
    let contribution = rust_contribution(
        ".",
        &signals,
        &vec![modified("alpha/src/lib.rs")],
        &vec![true],
        &packages,
        &Vec::new(),
        ".",
    );
    let described: Vec<(Option<&str>, Option<&str>, SignalKind, ImpactReasonKind, &str)> = contribution
        .selected_checks
        .iter()
        .map(|c| {
            (
                c.package.as_deref(),
                c.file.as_deref(),
                c.signal,
                c.reasons[0].kind,
                c.reasons[0].detail.as_str(),
            )
        })
        .collect();
    assert_eq!(
        described,
        vec![
            (
                Some("alpha"),
                None,
                SignalKind::Test,
                ImpactReasonKind::PackageOwnership,
                "changed source belongs to alpha"
            ),
            (
                None,
                None,
                SignalKind::Coverage,
                ImpactReasonKind::ConservativeBroadening,
                "coverage and mutation require root-comparable execution"
            ),
            (
                Some("zeta"),
                None,
                SignalKind::Test,
                ImpactReasonKind::ReverseDependency,
                "zeta transitively reverse-depends on a changed package"
            ),
            (
                None,
                None,
                SignalKind::Coverage,
                ImpactReasonKind::ConservativeBroadening,
                "coverage and mutation require root-comparable execution"
            ),
            (
                None,
                Some("alpha/src/lib.rs"),
                SignalKind::Size,
                ImpactReasonKind::ChangedFile,
                "alpha/src/lib.rs changed"
            ),
            (
                None,
                Some("alpha/src/lib.rs"),
                SignalKind::Complexity,
                ImpactReasonKind::ChangedFile,
                "alpha/src/lib.rs changed"
            ),
        ]
    );
    assert_eq!(contribution.selected_checks[0].confidence, ImpactConfidence::High);
    assert_eq!(contribution.selected_checks[1].confidence, ImpactConfidence::Medium);
}

#[test]
fn deleted_rust_files_send_size_and_complexity_to_the_root() {
    let packages = vec![package("alpha", "alpha", &[])];
    let changes = vec![ChangedPath {
        kind: ChangeKind::Deleted,
        path: String::from("alpha/src/old.rs"),
        previous_path: None,
    }];
    let contribution = rust_contribution(
        ".",
        &vec![SignalKind::Size, SignalKind::Complexity],
        &changes,
        &vec![false],
        &packages,
        &Vec::new(),
        ".",
    );
    assert_eq!(contribution.selected_checks.len(), 2);
    for check in &contribution.selected_checks {
        assert!(check.package.is_none() && check.file.is_none());
        assert_eq!(
            check.reasons[0].detail,
            "deleted, renamed, copied, or type-changed Rust files require root accounting"
        );
    }
}

#[test]
fn changes_outside_the_target_select_nothing() {
    let packages = vec![package("alpha", "alpha", &[])];
    let contribution = rust_contribution(
        "alpha",
        &vec![SignalKind::Test],
        &vec![modified("docs/readme.md")],
        &vec![true],
        &packages,
        &Vec::new(),
        ".",
    );
    assert!(contribution.selected_checks.is_empty());
    assert!(contribution.uncertainties.is_empty());
}

#[test]
fn broad_contributions_name_their_uncertainty() {
    let contribution = broad_contribution(
        "crates",
        &vec![SignalKind::Deps],
        UncertaintyKind::TopologyChanged,
        String::from("Cargo.toml changed Cargo topology"),
    );
    assert_eq!(contribution.uncertainties.len(), 1);
    assert_eq!(contribution.uncertainties[0].detail, "Cargo.toml changed Cargo topology");
    assert_eq!(contribution.selected_checks[0].configured_root, "crates");
    assert_eq!(contribution.selected_checks[0].reasons[0].detail, "Cargo.toml changed Cargo topology");
}

#[test]
fn paths_are_located_against_directories() {
    assert!(contains_path(".", "anything.rs"));
    assert!(contains_path("a", "a/src/lib.rs"));
    assert!(!contains_path("a", "ab/src/lib.rs"));
    assert_eq!(path_depth("."), 0);
    assert_eq!(path_depth("a/b"), 2);
    assert_eq!(path_in_target("crates/api/src/lib.rs", "crates/api").as_deref(), Some("src/lib.rs"));
    assert_eq!(path_in_target("crates/api", "crates/api").as_deref(), Some("."));
    assert_eq!(path_in_target("crates/apis/x.rs", "crates/api"), None);
    assert!(is_manifest("nested/Cargo.lock"));
    assert!(!is_manifest("nested/Cargo.toml.bak"));
    assert!(is_configuration_input("deny.toml"));
    assert!(!is_configuration_input("src/main.rs"));
    assert!(is_governing_rust_input(".cargo/config.toml", "crates/api"));
    assert!(is_governing_rust_input("crates/rust-toolchain", "crates/api"));
    assert!(!is_governing_rust_input("other/rust-toolchain", "crates/api"));
}

#[test]
fn owners_are_the_deepest_packages_and_closures_follow_dependents() {
    let packages = alias_workspace();
    assert_eq!(package_owners(&packages, "a/src/lib.rs"), strings(&["a"]));
    assert_eq!(package_owners(&packages, "src/main.rs"), strings(&["root"]));
    let mut closure = reverse_closure(&packages, &strings(&["b", "b"]));
    closure.sort();
    assert_eq!(closure, strings(&["b", "c"]));
    match classify_path(".", &packages, &Vec::new(), ".", "c/src/lib.rs") {
        PathImpact::Affected(name) => assert_eq!(name, "c"),
        _ => panic!("c owns its sources"),
    }
    match classify_path(".", &packages, &Vec::new(), ".", "README.md") {
        PathImpact::Irrelevant => {}
        _ => panic!("documentation is irrelevant"),
    }
    match affected_packages(".", &vec![modified("a/src/x.rs"), modified("c/src/y.rs")], &packages, &Vec::new(), ".") {
        PackageImpact::Affected(names) => assert_eq!(names, strings(&["a", "c"])),
        _ => panic!("two packages are affected"),
    }
}

fn test_check(root: &str) -> SelectedCheck {
    SelectedCheck::root(
        Language::Rust,
        String::from(root),
        SignalKind::Test,
        ImpactReason {
            kind: ImpactReasonKind::ChangedFile,
            detail: String::from("test"),
        },
        ImpactConfidence::High,
    )
}

fn row(language: Language, workspace_root: &str, path: Option<&str>, file: Option<&str>) -> RowIdentity {
    RowIdentity {
        language,
        kind: SignalKind::Test,
        scope: Scope {
            workspace_root: String::from(workspace_root),
            path: path.map(String::from),
            package: None,
            file: file.map(String::from),
        },
    }
}

#[test]
fn rejects_mismatched_adapter_row_as_completed_impact_evidence() {
    let check = test_check("crates/api");
    let mismatched = row(Language::Node, ".", Some("crates/api"), Some("other.rs"));
    let plan = vec![test_check("crates/api")];
    assert!(validate_managed_rows(&plan, &vec![row(Language::Node, ".", Some("crates/api"), Some("other.rs"))]).is_err());

    let matching = row(Language::Rust, "/workspace", Some("crates/api"), None);
    assert!(validate_managed_rows(&plan, &vec![matching]).is_ok());

    let error = reconcile_signal_row(&check, &mismatched, ".").expect_err("mismatched row");
    assert!(error.contains("does not match its selected check"));
    assert!(error.contains("language=rust"));
}

#[test]
fn mismatch_messages_show_both_sides() {
    let check = test_check(".");
    let other = row(Language::Go, "/tmp", Some("x"), Some("a.go"));
    let error = reconcile_signal_row(&check, &other, "/workspace").expect_err("mismatch");
    assert_eq!(
        error,
        "impact execution returned a row that does not match its selected check (expected language=rust, signal=test, workspace_root=/workspace, root=., package=None, file=None; got language=go, signal=test, workspace_root=/tmp, root=Some(\"x\"), package=None, file=Some(\"a.go\"))"
    );
    assert!(signal_row_matches(&check, &row(Language::Rust, "/workspace", None, None), "/workspace"));
    assert!(!signal_row_matches(&check, &row(Language::Rust, "/workspace", Some("."), None), "/workspace"));
}

#[test]
fn each_row_needs_a_planned_check_of_its_own() {
    let plan = vec![test_check("crates/api"), test_check("crates/api")];
    let one = || row(Language::Rust, "/workspace", Some("crates/api"), None);
    assert!(validate_managed_rows(&plan, &vec![one(), one()]).is_ok());
    assert_eq!(
        validate_managed_rows(&plan, &vec![one(), one(), one()]),
        Err(String::from("managed impact evidence contains a duplicate or unplanned signal row"))
    );
    assert!(validate_managed_rows(&Vec::new(), &Vec::new()).is_ok());
}

#[test]
fn issues_must_name_planned_checks() {
    let plan = vec![test_check("a")];
    let planned = vec![ExecutionIssue {
        check: Some(test_check("a")),
        message: String::from("collection incomplete"),
    }];
    assert!(validate_managed_issues(&plan, &planned).is_ok());
    let unplanned = vec![candidate_drift_issue(), ExecutionIssue {
        check: Some(test_check("b")),
        message: String::from("collection incomplete"),
    }];
    assert_eq!(
        validate_managed_issues(&plan, &unplanned),
        Err(String::from("managed impact evidence contains an issue for an unplanned check"))
    );
    assert!(candidate_drift_issue().message.starts_with("impact candidate changed during execution"));
}

#[test]
fn managed_results_live_in_the_private_pending_directory() {
    let parts = |absolute: bool, c: &[&str]| PathParts {
        absolute,
        components: strings(c),
    };
    assert_eq!(
        managed_result_relative_path(&Some(parts(false, &[".ayni", "impact", "pending", "impact-1.json"]))),
        Ok(String::from(".ayni/impact/pending/impact-1.json"))
    );
    let absolute = managed_result_relative_path(&Some(parts(true, &["tmp", "impact-1.json"]))).unwrap_err();
    assert_eq!(absolute.kind, ApplicationErrorKind::InvalidInput);
    assert_eq!(absolute.message, "managed impact result must be a repository-relative path");
    let elsewhere =
        managed_result_relative_path(&Some(parts(false, &[".ayni", "impact", "last", "impact.json"]))).unwrap_err();
    assert_eq!(elsewhere.message, "managed impact result must be a normalized private impact path");
    let missing = managed_result_relative_path(&None).unwrap_err();
    assert_eq!(missing.message, "managed impact execution requires a provisional result path");

    let reserved = parts(true, &["opt", "ayni", "inputs", "impact-plan.json"]);
    assert!(validate_managed_handoff_invocation(true, &reserved).is_ok());
    assert_eq!(
        validate_managed_handoff_invocation(false, &reserved).unwrap_err().message,
        "--managed-handoff is reserved for managed environment execution"
    );
    assert_eq!(
        validate_managed_handoff_invocation(true, &parts(true, &["tmp", "plan.json"])).unwrap_err().message,
        "managed impact handoff must use the reserved read-only input path"
    );
}

#[test]
fn managed_transport_must_agree_with_its_evidence() {
    let evidence = b"{\"schema_version\":\"x\"}\n";
    assert!(validate_managed_result_transport(true, evidence, RunOutcome::Passed, 0, evidence).is_ok());
    assert_eq!(
        validate_managed_result_transport(true, evidence, RunOutcome::Passed, 137, evidence),
        Err(String::from(
            "managed impact exited with 137, but its provisional evidence requires exit code 0"
        ))
    );
    assert_eq!(
        validate_managed_result_transport(false, evidence, RunOutcome::QualityFailed, -1, b""),
        Err(String::from(
            "managed impact exited with -1, but its provisional evidence requires exit code 1"
        ))
    );
    assert_eq!(
        validate_managed_result_transport(true, evidence, RunOutcome::ExecutionIncomplete, 4, b"{}"),
        Err(String::from("managed impact JSON output does not match its provisional evidence"))
    );
    assert!(validate_managed_result_transport(false, evidence, RunOutcome::ExecutionIncomplete, 4, b"{}").is_ok());
    assert_eq!(impact_outcome_flags(RunOutcome::Passed), (false, false));
    assert_eq!(impact_outcome_flags(RunOutcome::QualityFailed), (true, false));
    assert_eq!(impact_outcome_flags(RunOutcome::ExecutionIncomplete), (false, true));
}

#[test]
fn contract_and_lock_changes_run_every_signal_at_the_root() {
    let renamed = ChangedPath {
        kind: ChangeKind::Renamed,
        path: String::from("new.toml"),
        previous_path: Some(String::from(".ayni.toml")),
    };
    assert!(change_touches(&renamed, ".ayni.toml"));
    assert!(changes_touch(&vec![modified("src/lib.rs"), renamed], ".ayni.toml"));
    assert!(!changes_touch(&vec![modified("src/lib.rs")], ".ayni.lock"));

    let signals = vec![SignalKind::Test, SignalKind::Size];
    let contract = governed_broadening(Language::Rust, "crates", &signals, true, ".ayni.toml");
    assert_eq!(contract.len(), 2);
    assert_eq!(contract[0].reasons[0].kind, ImpactReasonKind::ContractChanged);
    assert_eq!(contract[0].reasons[0].detail, ".ayni.toml changed and invalidates governed checks");
    assert_eq!(contract[1].confidence, ImpactConfidence::Certain);
    let lock = governed_broadening(Language::Go, ".", &signals, false, ".ayni.toml");
    assert_eq!(lock[1].reasons[0].detail, ".ayni.lock changed and invalidates runtime checks");
    assert_eq!(lock[1].signal, SignalKind::Size);

    let (uncertainty, checks) = unsupported_broadening(Language::Node, "web", &signals, "no lockfile");
    assert_eq!(uncertainty.kind, UncertaintyKind::Unsupported);
    assert_eq!(uncertainty.detail, "node:web impact mapping broadened: no lockfile");
    assert_eq!(checks.len(), 2);
    assert_eq!(checks[0].confidence, ImpactConfidence::Unknown);
    assert_eq!(checks[0].reasons[0].kind, ImpactReasonKind::UnsupportedCapability);

    let cancelled = ensure_not_cancelled(true, "impact planning").unwrap_err();
    assert_eq!(cancelled.kind, ApplicationErrorKind::Execution);
    assert_eq!(cancelled.message, "impact planning aborted by Ctrl-C");
    assert!(ensure_not_cancelled(false, "impact planning").is_ok());
}

#[test]
fn managed_result_validation_rejects_derived_accounting_and_transport_drift() {
    let serialized = b"{\"plan\":{\"selected_checks\":[]}}\n";
    assert!(validate_managed_result_transport(true, serialized, RunOutcome::Passed, 0, serialized).is_ok());
    assert!(validate_managed_result_transport(true, serialized, RunOutcome::Passed, 137, serialized).is_err());
    let empty_plan: Vec<ayni::selection::SelectedCheck> = Vec::new();
    assert!(validate_managed_rows(&empty_plan, &Vec::new()).is_ok());
    assert_eq!(
        validate_managed_rows(&empty_plan, &vec![row(Language::Rust, "/workspace", None, None)]),
        Err(String::from("managed impact evidence contains a duplicate or unplanned signal row"))
    );
}

#[test]
fn closure_holds_exactly_the_names_that_reach_a_seed() {
    let packages = alias_workspace();
    let mut closure = reverse_closure(&packages, &strings(&["a"]));
    closure.sort();
    assert_eq!(closure, strings(&["a", "b", "c"]));
    let mut leaf = reverse_closure(&packages, &strings(&["c"]));
    leaf.sort();
    assert_eq!(leaf, strings(&["c"]));
}

#[test]
fn owners_of_one_directory_come_in_name_order() {
    let packages = vec![
        package("alpha", "shared", &[]),
        package("beta", "shared", &[]),
        package("root", ".", &[]),
    ];
    assert_eq!(package_owners(&packages, "shared/src/lib.rs"), strings(&["alpha", "beta"]));
}

#[test]
fn a_root_is_planned_from_the_contract_the_lock_or_its_analysis() {
    let signals = vec![SignalKind::Test, SignalKind::Size];
    let (checks, uncertainties) = plan_root_impact(
        Language::Rust,
        "crates/api",
        &signals,
        false,
        true,
        ".ayni.toml",
        Err(String::from("never read")),
    );
    assert_eq!(checks.len(), 2);
    assert!(uncertainties.is_empty());
    assert_eq!(checks[0].reasons[0].kind, ImpactReasonKind::EnvironmentChanged);
    assert_eq!(checks[0].confidence, ImpactConfidence::Certain);

    let contribution = ImpactContribution {
        language: Language::Rust,
        configured_root: String::from("crates/api"),
        selected_checks: vec![test_check("crates/api")],
        uncertainties: vec![ImpactUncertainty {
            kind: UncertaintyKind::UnknownPathOwnership,
            detail: String::from("x"),
        }],
    };
    let (checks, uncertainties) =
        plan_root_impact(Language::Rust, "crates/api", &signals, false, false, ".ayni.toml", Ok(contribution));
    assert_eq!(checks.len(), 1);
    assert_eq!(uncertainties.len(), 1);

    let (checks, uncertainties) = plan_root_impact(
        Language::Rust,
        "crates/api",
        &signals,
        false,
        false,
        ".ayni.toml",
        Err(String::from("manifest unreadable")),
    );
    assert_eq!(checks.len(), 2);
    assert_eq!(checks[1].confidence, ImpactConfidence::Unknown);
    assert_eq!(uncertainties[0].kind, UncertaintyKind::Unsupported);
    assert_eq!(uncertainties[0].detail, "rust:crates/api impact mapping broadened: manifest unreadable");
}

#[test]
fn an_impact_run_records_each_check_and_checks_for_drift() {
    let plan = vec![test_check("."), test_check("crates/api"), test_check("crates/web")];
    let state = impact_run_start();
    let (state, action) =
        impact_run_step(&plan, &state, ImpactRunEvent::Ready { cancelled: false, target_detected: false });
    match action {
        ImpactRunAction::Record { issue: Some(issue), keep_row: false } => {
            assert_eq!(issue.check, Some(0));
            assert_eq!(issue.message, "configured impact target was not detected or resolved");
        }
        _ => panic!("an undetected target is recorded"),
    }
    let (state, action) =
        impact_run_step(&plan, &state, ImpactRunEvent::Ready { cancelled: false, target_detected: true });
    assert!(matches!(action, ImpactRunAction::Collect(1)));
    assert_eq!(state.phase, RunPhase::Collecting);
    let (state, action) = impact_run_step(
        &plan,
        &state,
        ImpactRunEvent::Collected(Ok(CollectedRow {
            row: row(Language::Rust, "/repo", Some("crates/api"), None),
            expected_workspace_root: String::from("/repo"),
            command_failure: Some(String::from("cargo missing")),
        })),
    );
    match action {
        ImpactRunAction::Record { issue: Some(issue), keep_row: true } => {
            assert_eq!(issue.message, "test failed to execute: cargo missing");
        }
        _ => panic!("a failed command keeps its row with an issue"),
    }
    let (state, _) = impact_run_step(&plan, &state, ImpactRunEvent::Ready { cancelled: false, target_detected: true });
    let (state, action) =
        impact_run_step(&plan, &state, ImpactRunEvent::Collected(Err(String::from("timed out"))));
    match action {
        ImpactRunAction::Record { issue: Some(issue), keep_row: false } => {
            assert_eq!(issue.check, Some(2));
            assert_eq!(issue.message, "collection incomplete: timed out");
        }
        _ => panic!("an incomplete collection is recorded"),
    }
    let (state, action) =
        impact_run_step(&plan, &state, ImpactRunEvent::Ready { cancelled: false, target_detected: true });
    assert!(matches!(action, ImpactRunAction::VerifyCandidate));
    let (state, action) =
        impact_run_step(&plan, &state, ImpactRunEvent::CandidateChecked { cancelled: false, drifted: true });
    assert_eq!(state.phase, RunPhase::Finished);
    match action {
        ImpactRunAction::Finish { issue: Some(issue) } => assert_eq!(issue.message, candidate_drift_issue().message),
        _ => panic!("drift is recorded"),
    }
}

#[test]
fn a_cancelled_impact_run_stops_and_a_foreign_row_is_refused() {
    let plan = vec![test_check(".")];
    let state = impact_run_start();
    let (state, action) = impact_run_step(&plan, &state, ImpactRunEvent::Ready { cancelled: true, target_detected: true });
    assert_eq!(state.phase, RunPhase::Aborted);
    match action {
        ImpactRunAction::Abort(error) => {
            assert_eq!(error.kind, ApplicationErrorKind::Execution);
            assert_eq!(error.message, "impact execution aborted by Ctrl-C");
        }
        _ => panic!("cancellation stops the run"),
    }
    let state = impact_run_start();
    let (state, _) = impact_run_step(&plan, &state, ImpactRunEvent::Ready { cancelled: false, target_detected: true });
    let (_, action) = impact_run_step(
        &plan,
        &state,
        ImpactRunEvent::Collected(Ok(CollectedRow {
            row: row(Language::Rust, "/repo", Some("elsewhere"), None),
            expected_workspace_root: String::from("/repo"),
            command_failure: None,
        })),
    );
    match action {
        ImpactRunAction::Record { issue: Some(issue), keep_row: false } => {
            assert!(issue.message.starts_with("impact execution returned a row that does not match"));
        }
        _ => panic!("a row for another scope is refused"),
    }
}

#[test]
fn impact_evidence_must_be_ignored_by_git() {
    assert!(artifact_ignored(true, Some(0), "").is_ok());
    let error = artifact_ignored(false, Some(1), "").unwrap_err();
    assert_eq!(error.kind, ApplicationErrorKind::InvalidInput);
    assert_eq!(error.message, ".ayni/ must be ignored before impact planning can persist evidence");
    let error = artifact_ignored(false, Some(128), "not a git repository").unwrap_err();
    assert_eq!(error.message, "git check-ignore failed: not a git repository");
}
