use ayni::analysis::{
    canonicalize_relative_posix, flatten_target_results, normalize_configured_root,
    AnalyzePlanning, AnalyzeTarget, CompletionIssue, CompletionScope, CompletionStage,
    CompletionState, SIGNALS_ARTIFACT, VERIFY_SIGNALS_ARTIFACT,
};
use ayni::analysis::tool_id;
use ayni::vocabulary::{Checks, Language, SignalKind};

#[test]
fn verify_artifact_does_not_replace_analyze_artifact() {
    assert_ne!(VERIFY_SIGNALS_ARTIFACT, SIGNALS_ARTIFACT);
    assert_eq!(VERIFY_SIGNALS_ARTIFACT, ".ayni/verify/last/signals.json");
}

#[test]
fn configured_roots_are_canonical_relative_paths() {
    assert_eq!(canonicalize_relative_posix("  crates\\api/ "), "crates/api");
    assert_eq!(canonicalize_relative_posix("///"), ".");
    assert_eq!(canonicalize_relative_posix(""), ".");
    assert_eq!(normalize_configured_root(None), ".");
    assert_eq!(normalize_configured_root(Some("./")), ".");
    assert_eq!(normalize_configured_root(Some("apps/web/")), "apps/web");
}

#[test]
fn tool_ids_name_language_root_and_signal() {
    assert_eq!(tool_id(Language::Rust, "crates/api", SignalKind::Deps), "rust:crates/api:deps");
}

fn all_checks() -> Checks {
    Checks { test: true, coverage: false, size: false, complexity: false, deps: false, mutation: false }
}

#[test]
fn completion_counts_skipped_targets_and_appends_issues() {
    let planning = AnalyzePlanning {
        targets: vec![AnalyzeTarget { language: Language::Rust, root: String::from("."), checks: all_checks() }],
        expected_targets: 2,
        detected_targets: 1,
        issues: vec![CompletionIssue {
            language: Language::Go,
            configured_root: String::from("svc"),
            stage: CompletionStage::Detection,
            message: String::from("not detected"),
        }],
    };
    let completion = planning.completion(CompletionScope::Repository, 1, Vec::new());
    assert_eq!(completion.state, CompletionState::Incomplete);
    assert_eq!(completion.skipped_targets, 1);
    assert_eq!(completion.issues.len(), 1);
    let complete = planning.completion(CompletionScope::Repository, 2, Vec::new());
    assert_eq!(complete.state, CompletionState::Complete);
    let failures = planning.runnable_failure_issues(CompletionStage::Scheduling, "worker failed");
    assert_eq!(failures.len(), 1);
    assert_eq!(failures[0].configured_root, ".");
    assert_eq!(failures[0].message, "worker failed");
}

#[test]
fn flattening_stops_at_the_first_failure() {
    let ok: Vec<Option<Result<Vec<u8>, String>>> = vec![Some(Ok(vec![1, 2])), None, Some(Ok(vec![3]))];
    assert_eq!(flatten_target_results(ok, false), Ok(vec![1, 2, 3]));
    let aborted: Vec<Option<Result<Vec<u8>, String>>> = vec![Some(Ok(vec![1])), None, Some(Err(String::from("boom")))];
    assert_eq!(flatten_target_results(aborted, true), Err(String::from("operation aborted")));
    let failed: Vec<Option<Result<Vec<u8>, String>>> = vec![Some(Err(String::from("first"))), Some(Err(String::from("second")))];
    assert_eq!(flatten_target_results(failed, false), Err(String::from("first")));
}
