use ayni::toolchain::{
    add_coverage_component, discover_environment, Ownership, cargo_path_dependencies, crate_manifest, check_explicit_workspace, dependency_lock,
    explicit_workspace, legacy_toolchain, ownership, package_rust_version, runtime_requirement,
    signal_tools, toolchain_conflict, toolchain_from_toml, workspace_claims_target,
    workspace_members, Confidence, ManifestText, VersionRequirement, WorkspaceOwner,
};
use ayni::vocabulary::SignalKind;
use ayni::environment_plan::PlatformText;

fn manifest(content: &str, path: &str) -> ManifestText {
    ManifestText {
        content: content.to_string(),
        file: format!("/repo/{path}"),
        path: path.to_string(),
    }
}

fn exact(v: &VersionRequirement) -> Option<&str> {
    match v {
        VersionRequirement::Exact(t) => Some(t.as_str()),
        _ => None,
    }
}

#[test]
fn parses_exact_toml_toolchain_and_conforms_without_mutation() {
    let toolchain = toolchain_from_toml(
        "[toolchain]\nchannel = \"1.85.0\"\ncomponents = [\"rustfmt\", \"llvm-tools-preview\"]\ntargets = [\"wasm32-wasip1\"]\n",
        "/repo/rust-toolchain.toml",
        "rust-toolchain.toml",
    )
    .expect("toolchain");
    let (runtime, warnings) = runtime_requirement(Some(toolchain), None, "Cargo.toml");
    assert_eq!(exact(&runtime.version), Some("1.85.0"));
    assert_eq!(runtime.components, ["llvm-tools-preview", "rustfmt"]);
    assert_eq!(runtime.targets, ["wasm32-wasip1"]);
    assert_eq!(runtime.source.path, "rust-toolchain.toml");
    assert_eq!(runtime.source.kind, "rust_toolchain_toml");
    assert!(warnings.is_empty());
}

#[test]
fn toolchain_components_are_sorted_and_distinct() {
    let toolchain = toolchain_from_toml(
        "[toolchain]\nchannel = \"stable\"\ncomponents = [\"rustfmt\", \"clippy\", \"rustfmt\"]\n",
        "/repo/rust-toolchain.toml",
        "rust-toolchain.toml",
    )
    .expect("toolchain");
    assert_eq!(toolchain.components, ["clippy", "rustfmt"]);
    assert!(toolchain.targets.is_empty());
}

#[test]
fn preserves_legacy_toolchain_selector() {
    let toolchain = legacy_toolchain("stable\n", "/repo/rust-toolchain", "rust-toolchain").expect("legacy");
    assert_eq!(toolchain.source.kind, "rust_toolchain_legacy");
    let (runtime, _) = runtime_requirement(Some(toolchain), None, "Cargo.toml");
    assert!(matches!(runtime.version, VersionRequirement::Selector(ref s) if s == "stable"));
}

#[test]
fn legacy_selector_must_be_one_non_empty_line() {
    for content in ["", "  \n", "stable\nbeta\n"] {
        let error = legacy_toolchain(content, "/repo/rust-toolchain", "rust-toolchain").err().expect("error");
        assert_eq!(error, "/repo/rust-toolchain must contain one non-empty toolchain selector");
    }
}

#[test]
fn discovers_ancestor_toolchain_and_preserves_pinned_nightly() {
    let toolchain = toolchain_from_toml(
        "[toolchain]\nchannel = \"nightly-2026-08-01\"\n",
        "/repo/rust-toolchain.toml",
        "rust-toolchain.toml",
    )
    .expect("toolchain");
    let (runtime, _) = runtime_requirement(Some(toolchain), None, "crates/app/Cargo.toml");
    assert_eq!(exact(&runtime.version), Some("nightly-2026-08-01"));
    assert_eq!(runtime.source.path, "rust-toolchain.toml");
}

#[test]
fn uses_workspace_rust_version_and_records_workspace_ownership() {
    let target = manifest(
        "[package]\nname = \"app\"\nversion = \"0.1.0\"\nrust-version.workspace = true\n",
        "crates/app/Cargo.toml",
    );
    let owner = WorkspaceOwner {
        root: String::from("."),
        manifest: manifest(
            "[workspace]\nmembers = [\"crates/app\"]\n[workspace.package]\nrust-version = \"1.78\"\n",
            "Cargo.toml",
        ),
    };
    let owned = ownership(&target, &Some(owner)).expect("ownership");
    assert_eq!(owned.workspace_path.as_deref(), Some("."));
    assert_eq!(owned.package_name.as_deref(), Some("app"));
    assert_eq!(owned.manifest_path, "crates/app/Cargo.toml");
    let (runtime, _) = runtime_requirement(None, owned.rust_version, "crates/app/Cargo.toml");
    assert!(matches!(runtime.version, VersionRequirement::Minimum(ref v) if v == "1.78"));
    assert_eq!(runtime.source.path, "Cargo.toml");
    assert_eq!(runtime.source.kind, "cargo_workspace_package_rust_version");
}

#[test]
fn excluded_or_unlisted_package_is_not_claimed_by_workspace() {
    for workspace in [
        "[workspace]\nmembers = [\"crates/*\"]\nexclude = [\"crates/app\"]\n[workspace.package]\nrust-version = \"1.78\"\n",
        "[workspace]\nmembers = [\"crates/other\"]\n[workspace.package]\nrust-version = \"1.78\"\n",
    ] {
        let root = manifest(workspace, "Cargo.toml");
        assert_eq!(workspace_claims_target(&root, "crates/app"), Ok(false));
    }
    let listed = manifest("[workspace]\nmembers = [\"crates/*\"]\n", "Cargo.toml");
    assert_eq!(workspace_claims_target(&listed, "crates/app"), Ok(true));
    let package = manifest("[package]\nname = \"app\"\n", "Cargo.toml");
    assert_eq!(workspace_claims_target(&package, "crates/app"), Ok(false));
    let own = manifest("[workspace]\n", "crates/app/Cargo.toml");
    assert_eq!(workspace_claims_target(&own, ""), Ok(true));
}

#[test]
fn workspace_patterns_must_be_arrays_of_valid_strings() {
    let not_array = manifest("[workspace]\nmembers = \"crates/*\"\n", "Cargo.toml");
    assert_eq!(
        workspace_claims_target(&not_array, "crates/app"),
        Err(String::from("/repo/Cargo.toml workspace.members must be an array of strings"))
    );
    let not_string = manifest("[workspace]\nmembers = [1]\n", "Cargo.toml");
    assert_eq!(
        workspace_claims_target(&not_string, "crates/app"),
        Err(String::from("/repo/Cargo.toml workspace.members must contain only strings"))
    );
    let invalid = manifest("[workspace]\nmembers = [\"crates/[\"]\n", "Cargo.toml");
    let error = workspace_claims_target(&invalid, "crates/app").err().expect("error");
    assert!(error.starts_with("invalid Cargo workspace members pattern crates/[: "));
}

#[test]
fn explicit_non_ancestor_package_workspace_fails_closed() {
    let target = manifest(
        "[package]\nname = \"app\"\nversion = \"0.1.0\"\nworkspace = \"../../workspace\"\nrust-version.workspace = true\n",
        "packages/app/Cargo.toml",
    );
    assert_eq!(explicit_workspace(&target), Ok(Some(String::from("../../workspace"))));
    let workspace = manifest("[workspace]\n[workspace.package]\nrust-version = \"1.81\"\n", "workspace/Cargo.toml");
    let error = check_explicit_workspace("/repo", "/repo/packages/app", "/repo/workspace", &workspace)
        .err()
        .expect("non-ancestor workspace must fail closed");
    assert!(error.contains("non-ancestor package.workspace"));
    assert_eq!(
        check_explicit_workspace("/repo", "/repo/packages/app", "/elsewhere", &workspace),
        Err(String::from("explicit Cargo workspace escapes repository"))
    );
    assert_eq!(check_explicit_workspace("/repo", "/repo/workspace/app", "/repo/workspace", &workspace), Ok(()));
    let bare = manifest("[package]\nname = \"w\"\n", "workspace/Cargo.toml");
    assert_eq!(
        check_explicit_workspace("/repo", "/repo/workspace/app", "/repo/workspace", &bare),
        Err(String::from("explicit Cargo workspace has no [workspace] table: /repo/workspace/Cargo.toml"))
    );
}

#[test]
fn malformed_or_missing_inherited_rust_version_fails_closed() {
    let target = "[package]\nname = \"app\"\nversion = \"0.1.0\"\nrust-version.workspace = true\n";
    for workspace in [
        "[workspace]\nmembers = [\"crates/app\"]\n",
        "[workspace]\nmembers = [\"crates/app\"]\n[workspace.package]\nrust-version = 178\n",
    ] {
        assert_eq!(
            package_rust_version(target, "crates/app/Cargo.toml", workspace, "Cargo.toml").err(),
            Some(String::from(
                "workspace-inherited Cargo rust-version requires a string at workspace.package.rust-version"
            ))
        );
    }
    assert_eq!(
        package_rust_version("[package]\nrust-version = 1\n", "Cargo.toml", "", "Cargo.toml").err(),
        Some(String::from("Cargo package rust-version must be a string or { workspace = true }"))
    );
    let direct = package_rust_version("[package]\nrust-version = \"1.80\"\n", "Cargo.toml", "", "Cargo.toml")
        .expect("version")
        .expect("declared");
    assert_eq!(direct.version, "1.80");
    assert_eq!(direct.source.kind, "cargo_package_rust_version");
    assert_eq!(direct.source.confidence, Confidence::Declared);
}

#[test]
fn matching_legacy_selector_does_not_conflict_with_toml_components() {
    let toml = toolchain_from_toml(
        "[toolchain]\nchannel = \"1.85.0\"\ncomponents = [\"rustfmt\"]\n",
        "/repo/rust-toolchain.toml",
        "rust-toolchain.toml",
    )
    .expect("toml");
    let legacy = legacy_toolchain("1.85.0\n", "/repo/rust-toolchain", "rust-toolchain").expect("legacy");
    let toml = Some(toml);
    assert!(toolchain_conflict(&toml, &Some(legacy)).is_none());
    let (runtime, _) = runtime_requirement(toml, None, "Cargo.toml");
    assert_eq!(runtime.components, vec![String::from("rustfmt")]);
}

#[test]
fn toml_precedence_reports_a_typed_conflict_for_disagreement() {
    let toml = toolchain_from_toml("[toolchain]\nchannel = \"1.85.0\"\n", "/repo/rust-toolchain.toml", "rust-toolchain.toml")
        .expect("toml");
    let legacy = legacy_toolchain("1.84.0\n", "/repo/rust-toolchain", "rust-toolchain").expect("legacy");
    let toml = Some(toml);
    let conflict = toolchain_conflict(&toml, &Some(legacy)).expect("conflict");
    assert_eq!(conflict.code, "rust_toolchain_source_conflict");
    assert_eq!(conflict.sources.len(), 2);
    assert_eq!(conflict.sources[1].path, "rust-toolchain");
    let (runtime, _) = runtime_requirement(toml, None, "Cargo.toml");
    assert_eq!(exact(&runtime.version), Some("1.85.0"));
}

#[test]
fn missing_runtime_source_is_unresolved_with_an_actionable_warning() {
    let (runtime, warnings) = runtime_requirement(None, None, "Cargo.toml");
    assert!(matches!(runtime.version, VersionRequirement::Unresolved(_)));
    assert_eq!(runtime.source.kind, "unresolved");
    assert_eq!(runtime.source.confidence, Confidence::Assumed);
    assert_eq!(warnings[0].code, "rust_runtime_unresolved");
    assert!(warnings[0].message.contains("rust-toolchain.toml"));
}

#[test]
fn hashes_workspace_cargo_lock_with_a_relative_source() {
    let lock = dependency_lock("Cargo.lock", b"version = 3\n", ".");
    assert_eq!(lock.path, "Cargo.lock");
    assert_eq!(lock.owner_root, ".");
    assert_eq!(lock.source.path, "Cargo.lock");
    assert_eq!(lock.source.kind, "cargo_lock");
    assert_eq!(lock.digest, "sha256:a6302849064e016e520e513a22aef99a2d874333e7fcbf0b2c2260cb6ffb42f6");
    let manifest = dependency_lock("path-dependency/Cargo.toml", b"[package]\n", ".");
    assert_eq!(manifest.source.kind, "cargo_manifest");
    assert_eq!(
        cargo_path_dependencies(
            "[package]\nname = \"app\"\nversion = \"0.1.0\"\n[dependencies]\npath-dependency = { path = \"path-dependency\" }\n"
        ),
        ["path-dependency"]
    );
}

#[test]
fn hashes_only_workspace_members_and_path_dependencies() {
    let root = "[workspace]\nmembers = [\"crates/app\"]\nexclude = [\"examples/*\"]\n[workspace.dependencies]\nshared = { path = \"shared\" }\n[patch.crates-io]\npatched = { path = \"patched\" }\n[replace]\n\"legacy:0.1.0\" = { path = \"replacement\" }\n";
    assert_eq!(cargo_path_dependencies(root), ["shared", "patched", "replacement"]);
    let dirs: Vec<String> = ["crates/app", "shared", "patched", "replacement", "examples/unrelated"]
        .iter()
        .map(|d| d.to_string())
        .collect();
    let members = workspace_members(&manifest(root, "Cargo.toml"), &dirs).expect("members");
    assert_eq!(members, ["crates/app"]);
    assert_eq!(
        cargo_path_dependencies("[package]\nname = \"app\"\n[dependencies]\nshared.workspace = true\n"),
        Vec::<String>::new()
    );
}

#[test]
fn target_specific_and_dev_dependencies_contribute_paths() {
    let content = "[dev-dependencies]\nfixture = { path = \"fixture\" }\n[build-dependencies]\nbuilder = { path = \"builder\" }\n[target.'cfg(unix)'.dependencies]\nunix = { path = \"unix\" }\n[dependencies]\nserde = \"1\"\nlocal = { path = \"local\" }\n";
    assert_eq!(cargo_path_dependencies(content), ["local", "fixture", "builder", "unix"]);
}

#[test]
fn source_file_symlink_escape_and_malformed_toolchain_fail_closed() {
    let error = toolchain_from_toml("[toolchain]\n", "/repo/rust-toolchain.toml", "rust-toolchain.toml").err().expect("error");
    assert_eq!(error, "/repo/rust-toolchain.toml toolchain.channel must be a string");
    let missing = toolchain_from_toml("[other]\n", "/repo/rust-toolchain.toml", "rust-toolchain.toml").err().expect("error");
    assert_eq!(missing, "/repo/rust-toolchain.toml must contain [toolchain]");
    let broken = toolchain_from_toml("[toolchain", "/repo/rust-toolchain.toml", "rust-toolchain.toml").err().expect("error");
    assert!(broken.starts_with("failed to parse /repo/rust-toolchain.toml: "));
    let components = toolchain_from_toml("[toolchain]\nchannel = \"stable\"\ncomponents = \"rustfmt\"\n", "/r/t.toml", "t.toml")
        .err()
        .expect("error");
    assert_eq!(components, "/r/t.toml toolchain.components must be an array of strings");
}

#[test]
fn selects_only_catalog_tools_for_enabled_signals() {
    let signals = vec![
        SignalKind::Coverage,
        SignalKind::Complexity,
        SignalKind::Mutation,
        SignalKind::Test,
        SignalKind::Deps,
        SignalKind::Size,
    ];
    let tools = signal_tools(&signals, "Cargo.toml", &Vec::new());
    assert_eq!(
        tools.iter().map(|tool| tool.tool.as_str()).collect::<Vec<_>>(),
        ["cargo-llvm-cov", "rust-code-analysis-cli"]
    );
    assert_eq!(exact(&tools[0].version), Some("0.8.5"));
    assert!(matches!(tools[1].version, VersionRequirement::Unresolved(_)));
    let (mut runtime, _) = runtime_requirement(None, None, "Cargo.toml");
    add_coverage_component(&signals, &mut runtime);
    assert!(runtime.components.iter().any(|component| component == "llvm-tools-preview"));
    add_coverage_component(&signals, &mut runtime);
    assert_eq!(runtime.components.len(), 1);
    assert!(signal_tools(&vec![SignalKind::Test], "Cargo.toml", &Vec::new()).is_empty());
}

#[test]
fn crate_manifest_reads_the_package_name_and_declared_dependencies() {
    let m = manifest(
        "[package]\nname = \"core\"\n[dependencies]\nutil = { path = \"../util\" }\nserde = \"1\"\n",
        "crates/core/Cargo.toml",
    );
    let c = crate_manifest(&m).expect("parses").expect("crate");
    assert_eq!(c.name, "core");
    let deps: Vec<(String, Option<String>)> = c.dependencies.into_iter().map(|d| (d.name, d.path)).collect();
    assert_eq!(
        deps,
        vec![(String::from("serde"), None), (String::from("util"), Some(String::from("../util")))]
    );
    assert!(crate_manifest(&manifest("[workspace]\n", "Cargo.toml")).expect("parses").is_none());
    assert!(crate_manifest(&manifest("[package]\nversion = \"1\"\n", "Cargo.toml")).expect("parses").is_none());
    assert!(crate_manifest(&manifest("[package", "Cargo.toml")).is_err());
}

#[test]
fn the_toml_toolchain_decides_and_a_differing_legacy_file_conflicts() {
    let toml = toolchain_from_toml(
        "[toolchain]\nchannel = \"1.85.0\"\n",
        "/repo/rust-toolchain.toml",
        "rust-toolchain.toml",
    )
    .expect("toml toolchain");
    let legacy = legacy_toolchain("1.84.0\n", "/repo/rust-toolchain", "rust-toolchain").expect("legacy toolchain");
    let owner = Ownership {
        workspace_path: None,
        manifest_path: String::from("Cargo.toml"),
        package_name: Some(String::from("app")),
        rust_version: None,
    };
    let platforms = vec![PlatformText {
        os: String::from("Linux"),
        architecture: String::from("X86_64"),
        libc: String::from("Glibc"),
    }];
    let env = discover_environment(owner, Some(toml), Some(legacy), &vec![SignalKind::Coverage], &platforms, Vec::new());
    assert_eq!(exact(&env.runtime.version), Some("1.85.0"));
    assert_eq!(env.runtime.components, ["llvm-tools-preview"]);
    assert_eq!(env.conflicts.len(), 1);
    assert_eq!(env.conflicts[0].code, "rust_toolchain_source_conflict");
    assert_eq!(env.signal_tools.len(), 1);
    assert_eq!(env.signal_tools[0].tool, "cargo-llvm-cov");
    assert_eq!(env.package.as_deref(), Some("app"));
    assert!(env.warnings.is_empty());

    let owner = Ownership {
        workspace_path: None,
        manifest_path: String::from("Cargo.toml"),
        package_name: None,
        rust_version: None,
    };
    let env = discover_environment(owner, None, None, &vec![SignalKind::Test], &platforms, Vec::new());
    assert!(env.conflicts.is_empty());
    assert_eq!(env.warnings.len(), 1);
    assert_eq!(env.warnings[0].code, "rust_runtime_unresolved");
}
