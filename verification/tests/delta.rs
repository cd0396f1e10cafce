use ayni::delta::{delta_status, find_previous_row, same_row, DeltaStatus, RowKey};
use ayni::vocabulary::{Language, SignalKind};

fn key(kind: SignalKind, root: &str, path: Option<&str>) -> RowKey {
    RowKey {
        kind,
        language: Language::Rust,
        workspace_root: String::from(root),
        path: path.map(String::from),
        package: None,
        file: None,
    }
}

#[test]
fn previous_rows_match_by_signal_language_and_scope() {
    let previous = vec![
        key(SignalKind::Test, ".", None),
        key(SignalKind::Size, ".", None),
        key(SignalKind::Test, ".", Some("crates/api")),
        key(SignalKind::Size, ".", None),
    ];
    assert_eq!(find_previous_row(&key(SignalKind::Size, ".", None), &previous), Some(3));
    assert_eq!(find_previous_row(&key(SignalKind::Test, ".", Some("crates/api")), &previous), Some(2));
    assert_eq!(find_previous_row(&key(SignalKind::Deps, ".", None), &previous), None);
    assert!(same_row(&key(SignalKind::Test, ".", None), &key(SignalKind::Test, ".", None)));
    assert!(!same_row(&key(SignalKind::Test, ".", None), &key(SignalKind::Test, ".", Some("x"))));
}

#[test]
fn delta_status_reads_the_previous_run() {
    assert_eq!(delta_status(false, None, true, false), DeltaStatus::NoPreviousRun);
    assert_eq!(delta_status(true, None, true, false), DeltaStatus::NoPreviousTarget);
    assert_eq!(delta_status(true, Some(true), false, false), DeltaStatus::Changed);
    assert_eq!(delta_status(true, Some(true), true, true), DeltaStatus::Changed);
    assert_eq!(delta_status(true, Some(true), true, false), DeltaStatus::Unchanged);
    assert_eq!(DeltaStatus::NoPreviousRun.as_str(), "no_previous_run");
    assert_eq!(DeltaStatus::Unchanged.as_str(), "unchanged");
}
