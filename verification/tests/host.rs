use ayni::host::{
    command_lookup, host_prerequisites_result, is_unqualified_tool_name, missing_command_entry,
    missing_tool_entry, path_directory_from_exec_cwd, CommandLookup, Entry,
};
use ayni::paths::{path_join, same_path};
use ayni::vocabulary::{Language, SignalKind};

#[test]
fn qualified_mise_coordinates_are_not_treated_as_executable_names() {
    assert!(is_unqualified_tool_name("protoc"));
    assert!(!is_unqualified_tool_name("ubi:protocolbuffers/protobuf"));
    assert!(!is_unqualified_tool_name("npm:prettier"));
}

#[test]
fn relative_and_empty_path_entries_are_resolved_from_execution_cwd() {
    let cwd = "planned/execution/cwd";
    assert!(same_path(
        &path_directory_from_exec_cwd("tools", cwd),
        &path_join(cwd, "tools")
    ));
    assert!(same_path(&path_directory_from_exec_cwd("", cwd), cwd));
}

#[test]
fn absolute_path_entries_are_kept() {
    assert_eq!(path_directory_from_exec_cwd("/usr/bin", "cwd"), "/usr/bin");
}

#[test]
fn commands_are_looked_up_by_their_shape() {
    assert_eq!(command_lookup("/bin/sh"), CommandLookup::Absolute);
    assert_eq!(command_lookup("tools/runner"), CommandLookup::FromExecutionDirectory);
    assert_eq!(command_lookup("cargo"), CommandLookup::SearchPath);
}

#[test]
fn missing_executables_are_reported_once_in_order() {
    assert!(host_prerequisites_result(Vec::new()).is_ok());
    let entries = vec![
        Entry { text: missing_tool_entry("protoc") },
        Entry { text: missing_command_entry("cargo-llvm-cov", Language::Rust, None, SignalKind::Coverage) },
        Entry { text: missing_tool_entry("protoc") },
    ];
    let error = host_prerequisites_result(entries).expect_err("missing");
    assert_eq!(
        error,
        "host execution is missing required executable(s): `cargo-llvm-cov` (rust:. coverage), environment.tools.protoc (`protoc`). `--host` runs collectors using the host filesystem and PATH; install the required executable(s), or rerun without `--host` to use the locked managed environment"
    );
}
