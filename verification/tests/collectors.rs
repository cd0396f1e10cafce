use ayni::collectors::{
    analysis_target, cargo_subcommand, cargo_subcommand_executable, coverage_command,
    format_command, is_adapter_known_output_path, is_cargo_program, mutation_command,
    required_host_executables, resolve_repo_path, rust_code_analysis_args, rust_collection_support,
    AnalysisTarget,
};
use ayni::evidence::ToolOverride;
use ayni::vocabulary::{Language, SignalKind};

fn strings(values: &[&str]) -> Vec<String> {
    values.iter().map(|v| String::from(*v)).collect()
}

fn tool(command: &str, args: &[&str]) -> ToolOverride {
    ToolOverride {
        command: String::from(command),
        args: strings(args),
    }
}

#[test]
fn cargo_subcommand_overrides_declare_their_executables() {
    let test = tool("cargo", &["nextest", "run"]);
    let coverage = tool("/usr/local/bin/cargo", &[]);
    assert_eq!(
        required_host_executables(SignalKind::Test, Some(&test), false),
        strings(&["cargo", "cargo-nextest"])
    );
    assert_eq!(
        required_host_executables(SignalKind::Coverage, Some(&coverage), false),
        strings(&["/usr/local/bin/cargo", "cargo-llvm-cov"])
    );
}

#[test]
fn cargo_preflight_uses_only_the_actual_subcommand() {
    assert_eq!(
        cargo_subcommand_executable(
            SignalKind::Test,
            "cargo",
            &strings(&["--color", "always", "-C", "workspace", "nextest"]),
        ),
        Some(String::from("cargo-nextest"))
    );
    assert_eq!(
        cargo_subcommand_executable(SignalKind::Test, "cargo", &strings(&["test", "nextest"])),
        None
    );
    assert_eq!(
        cargo_subcommand_executable(SignalKind::Test, "cargo", &strings(&["test", "--", "nextest"])),
        None
    );
}

#[test]
fn default_tools_follow_the_signal() {
    assert_eq!(required_host_executables(SignalKind::Test, None, false), strings(&["cargo"]));
    assert_eq!(
        required_host_executables(SignalKind::Coverage, None, false),
        strings(&["cargo", "cargo-llvm-cov"])
    );
    assert_eq!(
        required_host_executables(SignalKind::Complexity, None, false),
        strings(&["rust-code-analysis-cli"])
    );
    assert_eq!(
        required_host_executables(SignalKind::Complexity, None, true),
        strings(&["rust-code-analysis-cli", "cargo"])
    );
    assert!(required_host_executables(SignalKind::Size, None, true).is_empty());
    assert!(required_host_executables(SignalKind::Mutation, None, false).is_empty());
    let other = tool("make", &["coverage"]);
    assert_eq!(
        required_host_executables(SignalKind::Coverage, Some(&other), false),
        strings(&["make"])
    );
}

#[test]
fn subcommands_skip_options_and_their_values() {
    assert_eq!(cargo_subcommand(&strings(&["+nightly", "llvm-cov"])), Some(String::from("llvm-cov")));
    assert_eq!(cargo_subcommand(&strings(&["--config", "x=1", "test"])), Some(String::from("test")));
    assert_eq!(cargo_subcommand(&strings(&["--locked", "test"])), Some(String::from("test")));
    assert_eq!(cargo_subcommand(&strings(&["-Z"])), None);
    assert_eq!(cargo_subcommand(&Vec::new()), None);
    assert!(is_cargo_program("/usr/local/bin/cargo"));
    assert!(is_cargo_program("CARGO.exe"));
    assert!(!is_cargo_program("cargo-nextest"));
    assert!(!is_cargo_program("/usr/bin/"));
}

#[test]
fn default_coverage_command_is_cargo_llvm_cov() {
    let (program, args, engine) = coverage_command(None);
    assert_eq!(program, "cargo");
    assert_eq!(args, vec!["llvm-cov", "--workspace", "--json", "--summary-only"]);
    assert_eq!(engine, "cargo-llvm-cov");
}

#[test]
fn coverage_command_uses_rust_tooling_override() {
    let configured = tool("cargo", &["llvm-cov", "--json"]);
    let (program, args, engine) = coverage_command(Some(&configured));
    assert_eq!(program, "cargo");
    assert_eq!(args, vec!["llvm-cov", "--json"]);
    assert_eq!(engine, "cargo llvm-cov --json");
}

#[test]
fn default_mutation_command_is_cargo_mutants() {
    let (program, args, engine) = mutation_command(None);
    assert_eq!(program, "cargo");
    assert_eq!(args, vec!["mutants", "--list"]);
    assert_eq!(engine, "cargo-mutants");
}

#[test]
fn mutation_command_uses_rust_tooling_override() {
    let configured = tool("cargo", &["mutants", "--in-diff", ".ayni/branch.diff"]);
    let (program, args, engine) = mutation_command(Some(&configured));
    assert_eq!(program, "cargo");
    assert_eq!(args, vec!["mutants", "--in-diff", ".ayni/branch.diff"]);
    assert_eq!(engine, "cargo mutants --in-diff .ayni/branch.diff");
}

#[test]
fn configured_commands_without_arguments_take_the_defaults() {
    let bare = tool("/opt/cargo", &[]);
    let (program, args, engine) = mutation_command(Some(&bare));
    assert_eq!(program, "/opt/cargo");
    assert_eq!(args, vec!["mutants", "--list"]);
    assert_eq!(engine, "/opt/cargo mutants --list");
    assert_eq!(format_command("ls", &Vec::new()), "ls");
}

#[test]
fn does_not_analyze_an_adapter_known_output_target() {
    assert!(is_adapter_known_output_path("target/generated.rs"));
    assert!(!is_adapter_known_output_path("src/lib.rs"));
    assert!(is_adapter_known_output_path("crates/api/.ayni/cache.rs"));
    assert!(!is_adapter_known_output_path("targets/lib.rs"));
}

#[test]
fn excludes_adapter_known_outputs_from_directory_analysis() {
    let temp = tempfile::TempDir::new().expect("tempdir");
    let root = temp.path().to_string_lossy().into_owned();
    let args = rust_code_analysis_args(&root, true);
    for pattern in ["**/target/**", "**/.git/**", "**/.ayni/**"] {
        assert!(args
            .windows(2)
            .any(|pair| pair[0] == "--exclude" && pair[1] == pattern));
    }
    let file = rust_code_analysis_args("src/lib.rs", false);
    assert_eq!(
        file,
        strings(&[
            "--metrics",
            "--paths",
            "src/lib.rs",
            "--language-type",
            "rust",
            "--output-format",
            "json"
        ])
    );
}

#[test]
fn file_scope_resolves_the_exact_file() {
    let temp = tempfile::TempDir::new().expect("tempdir");
    let root = temp.path().to_string_lossy().into_owned();
    match analysis_target(&Some(String::from("src/lib.rs")), &Some(String::from("api")), &None) {
        AnalysisTarget::File(file) => {
            let resolved = resolve_repo_path(&root, &file);
            assert_eq!(
                std::path::PathBuf::from(resolved),
                temp.path().join("src/lib.rs")
            );
        }
        _ => panic!("the file scope decides"),
    }
}

#[test]
fn package_scope_takes_precedence_over_the_broader_path_scope() {
    match analysis_target(&None, &Some(String::from("api")), &Some(String::from("."))) {
        AnalysisTarget::Package(package) => assert_eq!(package, "api"),
        _ => panic!("the package scope decides"),
    }
    assert!(matches!(
        analysis_target(&None, &None, &Some(String::from("crates"))),
        AnalysisTarget::Path(_)
    ));
    assert!(matches!(analysis_target(&None, &None, &None), AnalysisTarget::Workdir));
}

#[test]
fn repository_paths_join_relative_values_once() {
    assert_eq!(resolve_repo_path("/repo", "src/lib.rs"), "/repo/src/lib.rs");
    assert_eq!(resolve_repo_path("/repo/", "src/lib.rs"), "/repo/src/lib.rs");
    assert_eq!(resolve_repo_path("/repo", "/abs/lib.rs"), "/abs/lib.rs");
}

#[test]
fn concise_failure_message_takes_the_first_non_blank_line() {
    use_failure_message();
}

fn use_failure_message() {
    assert_eq!(
        ayni::collectors::concise_failure_message(b"\n   error: boom  \nmore\n", b"ignored"),
        "error: boom"
    );
    assert_eq!(ayni::collectors::concise_failure_message(b"  \n", b"\n  out line \n"), "out line");
    assert_eq!(
        ayni::collectors::concise_failure_message(b"", b""),
        "command failed without stdout/stderr output"
    );
    assert_eq!(ayni::collectors::concise_failure_message(b"\xff", b""), "\u{FFFD}");
}

#[test]
fn command_failure_records_the_command_and_what_it_said() {
    let failure = ayni::collectors::command_failure(
        "repo_code_issue",
        "cargo",
        &vec![String::from("mutants"), String::from("--json")],
        "/repo",
        Some(2),
        b"error: mutants failed\n",
        b"",
    );
    assert_eq!(failure.category, "repo_code_issue");
    assert_eq!(failure.classification, "command_error");
    assert_eq!(failure.command, "cargo mutants --json");
    assert_eq!(failure.cwd, "/repo");
    assert_eq!(failure.exit_code, Some(2));
    assert_eq!(failure.message, "error: mutants failed");
}

#[test]
fn mutation_is_rejected_without_invoking_a_tool() {
    let error = rust_collection_support(SignalKind::Mutation).expect_err("Rust mutation must be rejected");
    assert_eq!(error.language, Language::Rust);
    assert_eq!(error.message, "mutation is not supported for Rust targets");
    assert!(rust_collection_support(SignalKind::Test).is_ok());
}
