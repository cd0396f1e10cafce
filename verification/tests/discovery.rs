use ayni::adapter::{ComplexityThresholdKind, RustAdapter, VerificationSelectorSupport};
use ayni::discovery::{discover_project_roots, discover_roots, is_excluded_root, ProjectLayout};
use ayni::vocabulary::{Language, SignalKind};

const WORKSPACE_ONLY: &str = "[workspace]\nmembers = [\"crates/api\"]\n";
const WORKSPACE_WITH_PACKAGE: &str =
    "[package]\nname = \"root\"\nversion = \"0.1.0\"\nedition = \"2021\"\n\n[workspace]\nmembers = [\"crates/api\"]\n";

#[test]
fn workspace_controller_only_root_excludes_workspace_root() {
    let roots = vec![String::from("."), String::from("crates/api")];
    let discovery = discover_project_roots(&roots, Some(WORKSPACE_ONLY));
    assert_eq!(discovery.layout, ProjectLayout::ControlledMonorepo);
    assert_eq!(discover_roots(&roots, Some(WORKSPACE_ONLY)), vec![String::from("crates/api")]);
}

#[test]
fn workspace_with_package_includes_workspace_root() {
    let roots = vec![String::from("."), String::from("crates/api")];
    assert_eq!(
        discover_roots(&roots, Some(WORKSPACE_WITH_PACKAGE)),
        vec![String::from("."), String::from("crates/api")]
    );
}

#[test]
fn single_package_repository_is_a_single_root() {
    let roots = vec![String::from(".")];
    let discovery = discover_project_roots(&roots, Some("[package]\nname = \"one\"\n"));
    assert_eq!(discovery.layout, ProjectLayout::SingleRoot);
    assert_eq!(discovery.analyzable_roots(), vec![String::from(".")]);
}

#[test]
fn unparseable_root_manifest_declares_nothing() {
    let roots = vec![String::from("."), String::from("a")];
    let discovery = discover_project_roots(&roots, Some("[workspace"));
    assert_eq!(discovery.layout, ProjectLayout::UncontrolledMonorepo);
    assert_eq!(discovery.analyzable_roots(), vec![String::from("a")]);
}

#[test]
fn build_output_directories_hold_no_roots() {
    assert!(is_excluded_root(&[String::from("a"), String::from("target")].to_vec()));
    assert!(is_excluded_root(&[String::from("node_modules")].to_vec()));
    assert!(!is_excluded_root(&[String::from("targets")].to_vec()));
}

#[test]
fn detects_rust_roots_by_manifest() {
    let adapter = RustAdapter::new();
    assert_eq!(adapter.language(), Language::Rust);
    let found = adapter.detect("/repo", true);
    assert!(found.detected);
    assert_eq!(found.confidence, 100);
    assert_eq!(found.reason.as_deref(), Some("Cargo.toml found at /repo"));
    let missing = adapter.detect("/repo", false);
    assert!(!missing.detected);
    assert_eq!(missing.reason.as_deref(), Some("Cargo.toml not found at /repo"));
}

#[test]
fn resolves_cargo_workspace_ancestor() {
    let adapter = RustAdapter::new();
    let manifests = vec![None, Some(String::from(WORKSPACE_ONLY))];
    let resolution = adapter
        .resolve_execution("/tmp/repo", "/tmp/repo/crates/api", true, &manifests)
        .expect("resolution");
    assert_eq!(resolution.runner, "cargo");
    assert_eq!(resolution.kind, "workspace_ancestor");
    assert_eq!(resolution.exec_cwd, "/tmp/repo");
}

#[test]
fn roots_without_workspace_run_directly() {
    let adapter = RustAdapter::new();
    let manifests = vec![None, Some(String::from("[package]\nname = \"x\"\n"))];
    let resolution = adapter
        .resolve_execution("/tmp/repo", "/tmp/repo/crates/api", true, &manifests)
        .expect("resolution");
    assert_eq!(resolution.kind, "direct");
    assert_eq!(resolution.exec_cwd, "/tmp/repo/crates/api");
    assert!(adapter.resolve_execution("/tmp/repo", "/tmp/repo/x", false, &Vec::new()).is_none());
}

#[test]
fn declares_honest_selector_support() {
    let adapter = RustAdapter::new();
    assert_eq!(
        adapter.verification_selector_support(SignalKind::Test),
        VerificationSelectorSupport { file: false, package: true, name: true }
    );
    assert_eq!(
        adapter.verification_selector_support(SignalKind::Complexity),
        VerificationSelectorSupport { file: true, package: true, name: false }
    );
    assert_eq!(
        adapter.verification_selector_support(SignalKind::Deps),
        VerificationSelectorSupport { file: true, package: true, name: false }
    );
    assert_eq!(
        adapter.verification_selector_support(SignalKind::Size),
        VerificationSelectorSupport { file: true, package: false, name: false }
    );
    for kind in [SignalKind::Coverage, SignalKind::Mutation] {
        assert_eq!(
            adapter.verification_selector_support(kind),
            VerificationSelectorSupport { file: false, package: false, name: false }
        );
    }
}

#[test]
fn policy_effectiveness_declares_required_complexity_threshold() {
    let adapter = RustAdapter::new();
    assert_eq!(adapter.required_complexity_thresholds(), vec![ComplexityThresholdKind::FnCyclomatic]);
    assert_eq!(adapter.max_target_concurrency(), Some(1));
    assert_eq!(adapter.profile().default_file_globs, vec![String::from("*.rs")]);
}
