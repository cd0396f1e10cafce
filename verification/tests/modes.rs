use ayni::vocabulary::{
    effective_execution_mode_when, enabled_signal_kinds, execution_mode, execution_mode_name,
    max_level, mode_from_name, output_arg, output_name, signal_kind_slug, Checks, ExecutionMode,
    Language, Level, OutputArg, OutputFormat, SignalKind,
};

#[test]
fn managed_inner_execution_reports_managed_mode() {
    assert_eq!(
        effective_execution_mode_when(ExecutionMode::Host, true),
        ExecutionMode::Managed
    );
}

#[test]
fn requested_mode_is_kept_outside_managed_execution() {
    assert_eq!(effective_execution_mode_when(ExecutionMode::Host, false), ExecutionMode::Host);
    assert_eq!(execution_mode(true), ExecutionMode::Host);
    assert_eq!(execution_mode(false), ExecutionMode::Managed);
}

#[test]
fn mode_names_round_trip() {
    for mode in [ExecutionMode::Managed, ExecutionMode::Host] {
        assert_eq!(mode_from_name(execution_mode_name(mode)), mode);
    }
    assert_eq!(mode_from_name("anything"), ExecutionMode::Host);
}

#[test]
fn vocabulary_names() {
    assert_eq!(Language::Kotlin.as_str(), "kotlin");
    assert_eq!(signal_kind_slug(SignalKind::Deps), "deps");
    assert_eq!(output_name(OutputFormat::Markdown), "markdown");
    assert_eq!(output_arg(OutputFormat::Markdown), OutputArg::Md);
    assert_eq!(OutputArg::Md.as_str(), "md");
}

#[test]
fn fail_beats_warn() {
    assert_eq!(max_level(Some(Level::Warn), Some(Level::Fail)), Some(Level::Fail));
    assert_eq!(max_level(None, Some(Level::Warn)), Some(Level::Warn));
    assert_eq!(max_level(None, None), None);
}

#[test]
fn enabled_signals_follow_canonical_order() {
    let checks = Checks { test: true, coverage: false, size: true, complexity: false, deps: true, mutation: false };
    assert_eq!(
        enabled_signal_kinds(&checks),
        vec![SignalKind::Test, SignalKind::Size, SignalKind::Deps]
    );
}

#[test]
fn signal_enabled_reads_the_check_of_each_kind() {
    let checks = Checks {
        test: true,
        coverage: false,
        size: true,
        complexity: false,
        deps: true,
        mutation: false,
    };
    assert!(ayni::vocabulary::signal_enabled(&checks, SignalKind::Test));
    assert!(!ayni::vocabulary::signal_enabled(&checks, SignalKind::Coverage));
    assert!(ayni::vocabulary::signal_enabled(&checks, SignalKind::Size));
    assert!(!ayni::vocabulary::signal_enabled(&checks, SignalKind::Complexity));
    assert!(ayni::vocabulary::signal_enabled(&checks, SignalKind::Deps));
    assert!(!ayni::vocabulary::signal_enabled(&checks, SignalKind::Mutation));
}

#[test]
fn display_path_writes_forward_slashes() {
    assert_eq!(ayni::paths::display_path("crates\\app\\src/lib.rs"), "crates/app/src/lib.rs");
    assert_eq!(ayni::paths::display_path("plain"), "plain");
}
