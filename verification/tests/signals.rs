use ayni::signals::{
    contains_ignored_part, metric_path_in_repo, run_deps_check, mutants_report_lines, run_mutation_check,
    parse_path_line_prefix, path_class, repo_relative_metric_path, resolve_crate_path,
    resolve_scope, scoped_crates, run_size_check, to_relative_posix, CrateDependency, CrateInfo,
    SignalCheck, SignalScopeInput,
};
use ayni::vocabulary::Level;

fn krate(name: &str, path: &str, deps: &[(&str, Option<&str>)]) -> CrateInfo {
    CrateInfo {
        name: String::from(name),
        path: String::from(path),
        cargo_path: format!("/repo/{path}/Cargo.toml"),
        dependencies: deps
            .iter()
            .map(|(name, path)| CrateDependency {
                name: String::from(*name),
                path: path.map(String::from),
            })
            .collect(),
    }
}

#[test]
fn check_names_are_stable() {
    assert_eq!(SignalCheck::Size.as_str(), "size");
    assert_eq!(SignalCheck::Complexity.as_str(), "complexity");
    assert_eq!(SignalCheck::Deps.as_str(), "deps");
    assert_eq!(SignalCheck::Mutation.as_str(), "mutation");
}

#[test]
fn default_scope_input_is_unscoped() {
    let input = SignalScopeInput::default();
    assert!(input.scope.is_none() && input.file.is_none() && input.package.is_none());
}

#[test]
fn size_check_sorts_offenders_and_applies_fail_threshold() {
    let files = vec![
        (String::from("core/src/a.rs"), 3),
        (String::from("core/src/b.rs"), 6),
        (String::from("core/src/c.rs"), 1),
    ];
    let findings = run_size_check(&files, 2, 4);
    assert!(!findings.pass);
    assert_eq!(findings.offenders.len(), 2);
    assert_eq!(findings.offenders[0].file, "core/src/b.rs");
    assert_eq!(findings.offenders[0].value, 6);
    assert_eq!(findings.offenders[0].level, Level::Fail);
    assert_eq!(findings.offenders[1].level, Level::Warn);
    assert_eq!(findings.warn_count, 1);
    assert_eq!(findings.fail_count, 1);
    assert_eq!(findings.max_lines, 6);
    assert_eq!(findings.total_files, 3);
}

#[test]
fn equal_sizes_keep_file_order() {
    let files = vec![(String::from("b.rs"), 9), (String::from("a.rs"), 9)];
    let findings = run_size_check(&files, 1, 100);
    assert_eq!(findings.offenders[0].file, "b.rs");
    assert_eq!(findings.offenders[1].file, "a.rs");
    assert!(findings.pass);
}

#[test]
fn ignored_parts_are_whole_components() {
    assert!(contains_ignored_part("repo/target/debug/x.rs"));
    assert!(contains_ignored_part("/repo/.git/config"));
    assert!(contains_ignored_part("node_modules"));
    assert!(!contains_ignored_part("repo/targets/x.rs"));
    assert!(!contains_ignored_part("repo/src/build.rs"));
}

#[test]
fn path_classes_group_adapters() {
    assert_eq!(path_class("core"), "core");
    assert_eq!(path_class("adapters/rust"), "adapters/*");
    assert_eq!(path_class("cli"), "cli");
    assert_eq!(path_class("tools/x"), "tools/x");
}

#[test]
fn path_line_prefix_needs_a_file_and_a_line() {
    assert_eq!(
        parse_path_line_prefix("src/lib.rs:42:5: replace foo"),
        Some((String::from("src/lib.rs"), 42))
    );
    assert_eq!(parse_path_line_prefix(" src/a.rs : 7 "), Some((String::from("src/a.rs"), 7)));
    assert_eq!(parse_path_line_prefix("src/lib.rs"), None);
    assert_eq!(parse_path_line_prefix(":3:x"), None);
    assert_eq!(parse_path_line_prefix("a.rs:x:1"), None);
}

#[test]
fn relative_posix_paths_are_taken_under_the_repository() {
    assert_eq!(to_relative_posix("/repo", "/repo/core/src").unwrap(), "core/src");
    assert_eq!(
        to_relative_posix("/repo", "/other/x").unwrap_err(),
        "path /other/x is outside repo /repo: prefix not found"
    );
}

#[test]
fn scopes_resolve_files_scopes_and_crate_names() {
    let crates = vec![krate("core", "core", &[]), krate("cli", "apps/cli", &[])];
    let by_package = resolve_scope(
        "/repo",
        &SignalScopeInput { scope: None, file: None, package: Some(String::from("cli")) },
        &crates,
    )
    .unwrap();
    assert_eq!(by_package.root_relative, "apps/cli");
    assert_eq!(by_package.root_absolute, "/repo/apps/cli");
    let by_path = resolve_scope(
        "/repo",
        &SignalScopeInput { scope: None, file: None, package: Some(String::from("tools/x")) },
        &crates,
    )
    .unwrap();
    assert_eq!(by_path.root_relative, "tools/x");
    let by_file = resolve_scope(
        "/repo",
        &SignalScopeInput { scope: Some(String::from("core")), file: Some(String::from("/abs/f.rs")), package: None },
        &crates,
    )
    .unwrap();
    assert_eq!(by_file.root_relative, "/abs/f.rs");
    assert_eq!(by_file.root_absolute, "/abs/f.rs");
    let whole = resolve_scope("/repo", &SignalScopeInput::default(), &crates).unwrap();
    assert_eq!(whole.root_relative, ".");
}

#[test]
fn ambiguous_crate_names_are_refused() {
    let crates = vec![krate("dup", "a", &[]), krate("dup", "b", &[])];
    assert_eq!(
        resolve_crate_path("dup", &crates).unwrap_err(),
        "multiple crates found for 'dup'"
    );
    assert_eq!(resolve_crate_path("none", &crates).unwrap(), None);
}

#[test]
fn scoped_crates_are_at_under_or_above_the_root() {
    let crates = vec![
        krate("core", "core", &[]),
        krate("api", "crates/api", &[]),
        krate("apix", "crates/apix", &[]),
    ];
    assert_eq!(scoped_crates(".", &crates), vec![0, 1, 2]);
    assert_eq!(scoped_crates("crates/api/", &crates), vec![1]);
    assert_eq!(scoped_crates("crates/api/src", &crates), vec![1]);
    assert_eq!(scoped_crates("crates", &crates), vec![1, 2]);
}

#[test]
fn deps_check_reports_forbidden_edges_last_first() {
    let crates = vec![
        krate("core", "core", &[("cli", None)]),
        krate("rust", "adapters/rust", &[("core", None), ("helper", Some("cli"))]),
        krate("cli", "cli", &[("serde", None)]),
    ];
    let forbidden = vec![
        (String::from("adapters/*"), vec![String::from("cli"), String::from("c*")]),
        (String::from("core"), vec![String::from("cli")]),
    ];
    let outcome = run_deps_check(".", &crates, &forbidden).unwrap();
    assert_eq!(outcome.crate_count, 3);
    assert_eq!(outcome.edge_count, 3);
    assert!(!outcome.pass);
    let values: Vec<_> = outcome.violations.iter().map(|v| (v.value.clone(), v.forbidden.clone())).collect();
    assert_eq!(
        values,
        vec![
            (String::from("core -> cli"), String::from("cli")),
            (String::from("adapters/rust -> core"), String::from("c*")),
            (String::from("adapters/rust -> cli"), String::from("cli")),
            (String::from("adapters/rust -> cli"), String::from("c*")),
        ]
    );
    assert_eq!(outcome.violations[0].file, "core/Cargo.toml");
    assert_eq!(outcome.violations[1].rule, "adapters/*");
}

#[test]
fn invalid_forbidden_patterns_are_reported() {
    let crates = vec![krate("core", "core", &[("cli", None)]), krate("cli", "cli", &[])];
    let forbidden = vec![(String::from("core"), vec![String::from("[")])];
    let error = run_deps_check(".", &crates, &forbidden).err().expect("invalid pattern");
    assert!(error.starts_with("invalid forbidden deps pattern '[': "));
}

#[test]
fn mutation_findings_fail_missed_and_warn_timeouts() {
    let report = "src/lib.rs:10:5: replace a with b\n\n  src/x.rs:3: delete ! \n";
    let missed = mutants_report_lines(report);
    assert_eq!(missed, vec![String::from("src/lib.rs:10:5: replace a with b"), String::from("src/x.rs:3: delete !")]);
    let timeout = vec![String::from("no location")];
    let caught = vec![String::from("c1"), String::from("c2")];
    let findings = run_mutation_check(&missed, &timeout, &caught);
    assert_eq!(findings.total_mutants, 5);
    assert!(!findings.pass);
    assert_eq!(findings.offenders.len(), 3);
    assert_eq!(findings.offenders[0].level, Level::Fail);
    assert_eq!(findings.offenders[0].location, Some((String::from("src/lib.rs"), 10)));
    assert_eq!(findings.offenders[2].level, Level::Warn);
    assert_eq!(findings.offenders[2].location, None);
    assert!(run_mutation_check(&Vec::new(), &Vec::new(), &caught).pass);
}

#[test]
fn metric_paths_are_repository_relative() {
    assert_eq!(repo_relative_metric_path(Some("/repo"), "/repo//core/src/lib.rs"), "core/src/lib.rs");
    assert_eq!(repo_relative_metric_path(Some("/repo"), "././core\\lib.rs "), "core/lib.rs");
    assert_eq!(repo_relative_metric_path(None, "./x.rs"), "x.rs");
}

#[test]
fn size_bounds_are_reached_at_warn_and_at_fail() {
    let files = vec![
        (String::from("below.rs"), 4),
        (String::from("at_warn.rs"), 5),
        (String::from("at_fail.rs"), 10),
    ];
    let findings = run_size_check(&files, 5, 10);
    assert_eq!(findings.offenders.len(), 2);
    assert_eq!(findings.offenders[0].file, "at_fail.rs");
    assert_eq!(findings.offenders[0].level, Level::Fail);
    assert_eq!(findings.offenders[1].file, "at_warn.rs");
    assert_eq!(findings.offenders[1].level, Level::Warn);
    assert_eq!(findings.warn_count, 1);
    assert_eq!(findings.fail_count, 1);
    assert!(!findings.pass);
}

#[test]
fn metric_paths_are_taken_relative_to_the_repository() {
    assert_eq!(metric_path_in_repo("/repo", "/repo/crates/api", "src/lib.rs"), "crates/api/src/lib.rs");
    assert_eq!(metric_path_in_repo("/repo", "/repo/crates/api", "./src/lib.rs"), "crates/api/src/lib.rs");
    assert_eq!(metric_path_in_repo("/repo", "/repo/crates/api", "crates/api/src/lib.rs"), "crates/api/src/lib.rs");
    assert_eq!(metric_path_in_repo("/repo", "/repo", "/repo/src/main.rs"), "src/main.rs");
    assert_eq!(metric_path_in_repo("/repo", "/repo", "/elsewhere/x.rs"), "/elsewhere/x.rs");
    assert_eq!(metric_path_in_repo("/repo", "/other", "src\\lib.rs"), "src/lib.rs");
}
