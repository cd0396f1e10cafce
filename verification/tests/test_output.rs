use ayni::cargo_test::{
    build_test_row, parse_all_test_result_lines, parse_count_segment,
    parse_single_test_result_line, selected_test_command, stderr_tail, test_command,
};
use ayni::evidence::{Scope, ToolOverride};

fn scope() -> Scope {
    Scope {
        workspace_root: String::from("."),
        path: None,
        package: None,
        file: None,
    }
}

#[test]
fn aggregates_multiple_test_result_lines() {
    let stdout = "\
Running tests crate A
test result: ok. 5 passed; 0 failed; 0 ignored; 0 measured; 0 filtered out\n\
Running tests crate B
test result: ok. 20 passed; 0 failed; 0 ignored; 0 measured; 0 filtered out\n\
Doc-tests\n\
test result: ok. 0 passed; 0 failed; 0 ignored; 0 measured; 0 filtered out\n\
";
    let parsed = parse_all_test_result_lines(stdout).expect("aggregate");
    assert_eq!(parsed.1, 25);
    assert_eq!(parsed.2, 0);
    assert_eq!(parsed.0, 25);
}

#[test]
fn default_test_command_is_cargo_test() {
    let (program, args) = test_command(None);
    assert_eq!(program, "cargo");
    assert_eq!(args, vec!["test"]);
}

#[test]
fn focused_command_maps_package_and_name_to_cargo() {
    let mut scope = scope();
    scope.package = Some(String::from("ayni-core"));
    let (_, args) = selected_test_command(&scope, None, &Some(String::from("parses")))
        .expect("selected command");
    assert_eq!(args, ["test", "--package", "ayni-core", "parses"]);
}

#[test]
fn focused_command_rejects_rust_source_file() {
    let mut scope = scope();
    scope.file = Some(String::from("core/src/lib.rs"));
    let error = selected_test_command(&scope, None, &None).expect_err("file rejected");
    assert!(error.contains("source-file selection is unsupported"));
}

#[test]
fn test_command_uses_rust_tooling_override() {
    let tool = ToolOverride {
        command: String::from("cargo"),
        args: vec![String::from("nextest"), String::from("run")],
    };
    let (program, args) = test_command(Some(&tool));
    assert_eq!(program, "cargo");
    assert_eq!(args, vec!["nextest", "run"]);
}

#[test]
fn failed_test_row_preserves_command_exit_code() {
    let row = build_test_row(scope(), ".", false, Some(17), "", "forced failure", "cargo test");
    assert_eq!(row.result.failure.expect("failure").exit_code, Some(17));
}

#[test]
fn failed_row_keeps_stderr_tail_and_fails() {
    let row = build_test_row(
        scope(),
        "/work",
        false,
        Some(101),
        "test result: FAILED. 3 passed; 1 failed; 0 ignored\n",
        "a\nb\nc\n",
        "cargo test",
    );
    assert!(!row.pass);
    assert_eq!(row.result.total_tests, 4);
    assert_eq!(row.result.passed, 3);
    assert_eq!(row.result.failed, 1);
    assert_eq!(row.offenders.len(), 1);
    assert_eq!(row.offenders[0].message, "cargo test failed; stderr tail:\na\nb\nc");
    let failure = row.result.failure.expect("failure");
    assert_eq!(failure.category, "repo_code_issue");
    assert_eq!(failure.classification, "command_error");
    assert_eq!(failure.cwd, "/work");
    assert_eq!(failure.message, "a\nb\nc");
}

#[test]
fn successful_row_without_result_lines_has_zero_counts() {
    let row = build_test_row(scope(), ".", true, Some(0), "nothing here\n", "", "cargo test");
    assert!(row.pass);
    assert_eq!(row.result.total_tests, 0);
    assert!(row.offenders.is_empty());
    assert!(row.result.failure.is_none());
}

#[test]
fn count_segments_take_the_last_token_before_the_word() {
    assert_eq!(parse_count_segment(" ok. 5 passed", "passed"), Some(5));
    assert_eq!(parse_count_segment("+7 failed", "failed"), Some(7));
    assert_eq!(parse_count_segment("x failed", "failed"), None);
    assert_eq!(parse_count_segment("5 passed", "failed"), None);
    assert_eq!(parse_count_segment("18446744073709551616 passed", "passed"), None);
}

#[test]
fn single_line_needs_both_counts() {
    assert_eq!(
        parse_single_test_result_line("test result: ok. 2 passed; 1 failed; 0 ignored"),
        Some((3, 2, 1))
    );
    assert_eq!(parse_single_test_result_line("test result: ok. 2 passed"), None);
    assert_eq!(
        parse_single_test_result_line("test result: ok. 18446744073709551615 passed, 1 failed"),
        Some((u64::MAX, u64::MAX, 1))
    );
}

#[test]
fn no_result_line_gives_none() {
    assert_eq!(parse_all_test_result_lines("running 0 tests\n"), None);
    assert_eq!(parse_all_test_result_lines(""), None);
}

#[test]
fn stderr_tail_keeps_the_last_lines() {
    assert_eq!(stderr_tail("1\n2\n3\n4\n", 2), "3\n4");
    assert_eq!(stderr_tail("1\r\n2", 5), "1\n2");
    assert_eq!(stderr_tail("", 3), "");
}
