use ayni::analysis::{
    AnalyzePlanning, AnalyzeTarget, CompletionIssue, CompletionScope, CompletionStage,
    CompletionState,
};
use ayni::reconcile::{reconcile, EmittedRow};
use ayni::vocabulary::{Checks, Language, SignalKind};

fn checks(test: bool, size: bool) -> Checks {
    Checks { test, coverage: false, size, complexity: false, deps: false, mutation: false }
}

fn planning(targets: Vec<(Language, &str, Checks)>, expected: u64) -> AnalyzePlanning {
    let targets: Vec<AnalyzeTarget> = targets
        .into_iter()
        .map(|(language, root, checks)| AnalyzeTarget { language, root: String::from(root), checks })
        .collect();
    AnalyzePlanning { detected_targets: targets.len() as u64, targets, expected_targets: expected, issues: Vec::new() }
}

fn row(language: Language, path: Option<&str>, kind: SignalKind, id: u32) -> EmittedRow<u32> {
    EmittedRow { language, path: path.map(String::from), kind, row: id }
}

#[test]
fn missing_expected_row_creates_collection_issue() {
    let planning = planning(vec![(Language::Rust, ".", checks(true, false))], 1);
    let (completion, rows) = reconcile(&planning, CompletionScope::Requested, Some(SignalKind::Test), Vec::<EmittedRow<u32>>::new());

    assert!(rows.is_empty());
    assert_eq!(completion.state, CompletionState::Incomplete);
    assert_eq!(completion.completed_targets, 0);
    assert_eq!(completion.skipped_targets, 1);
    assert_eq!(completion.issues[0].stage, CompletionStage::Collection);
    assert_eq!(completion.issues[0].configured_root, ".");
    assert!(completion.issues[0].message.contains("missing expected test row"));
}

#[test]
fn expected_rows_once_each_complete_the_run() {
    let planning = planning(vec![(Language::Rust, ".", checks(true, true))], 1);
    let emitted = vec![
        row(Language::Rust, None, SignalKind::Size, 1),
        row(Language::Rust, Some("./"), SignalKind::Test, 2),
    ];
    let (completion, rows) = reconcile(&planning, CompletionScope::Repository, None, emitted);
    assert_eq!(completion.state, CompletionState::Complete);
    assert_eq!(completion.completed_targets, 1);
    assert!(completion.issues.is_empty());
    assert_eq!(rows.iter().map(|r| r.row).collect::<Vec<_>>(), vec![1, 2]);
}

#[test]
fn repeated_and_unexpected_rows_are_dropped_and_reported() {
    let planning = planning(
        vec![(Language::Rust, "crates/b", checks(true, false)), (Language::Rust, "crates/a", checks(true, false))],
        2,
    );
    let emitted = vec![
        row(Language::Rust, Some("crates/b"), SignalKind::Test, 1),
        row(Language::Rust, Some("crates/b/"), SignalKind::Test, 2),
        row(Language::Rust, Some("crates/b"), SignalKind::Test, 3),
        row(Language::Rust, Some("crates/a"), SignalKind::Size, 4),
        row(Language::Go, Some("elsewhere"), SignalKind::Deps, 5),
    ];
    let (completion, rows) = reconcile(&planning, CompletionScope::Repository, None, emitted);
    assert_eq!(rows.iter().map(|r| r.row).collect::<Vec<_>>(), vec![1]);
    assert_eq!(completion.state, CompletionState::Incomplete);
    assert_eq!(completion.skipped_targets, 2);
    assert_eq!(completion.completed_targets, 0);
    assert_eq!(completion.issues[0].configured_root, "crates/a");
    assert_eq!(
        completion.issues[0].message,
        "missing expected test row; emitted unexpected size row for rust:crates/a; emitted unexpected deps row for go:elsewhere"
    );
    assert_eq!(completion.issues[1].configured_root, "crates/b");
    assert_eq!(completion.issues[1].message, "emitted 3 test rows");
}

#[test]
fn planned_issues_stay_ahead_of_collection_issues_of_the_same_target() {
    let mut planning = planning(vec![(Language::Rust, "x", checks(true, false))], 3);
    planning.issues = vec![
        CompletionIssue {
            language: Language::Go,
            configured_root: String::from("svc"),
            stage: CompletionStage::Detection,
            message: String::from("not detected"),
        },
        CompletionIssue {
            language: Language::Rust,
            configured_root: String::from("x/"),
            stage: CompletionStage::Collection,
            message: String::from("earlier"),
        },
    ];
    let (completion, _) = reconcile(&planning, CompletionScope::Repository, None, Vec::<EmittedRow<u32>>::new());
    let messages: Vec<_> = completion.issues.iter().map(|i| i.message.clone()).collect();
    assert_eq!(messages, vec![String::from("earlier"), String::from("missing expected test row"), String::from("not detected")]);
    assert_eq!(completion.skipped_targets, 3);
    assert_eq!(completion.completed_targets, 0);
}
