use ayni::environment_plan::{
    check_dependency_locks, lock_changed, merge_source_digests, render_plan, source_digest,
    source_paths, ConflictSourceText, ConflictText, DebianPackageText, DependencyLockText,
    DiagnosticText, EnvironmentPlanText, PackageManagerText, PlatformText, RuntimeText,
    SignalToolText, SourceText, SystemRequirementText, TargetText, ToolText,
};
use ayni::operations::{DockerAccess, NetworkAccess};
use ayni::vocabulary::{Language, SignalKind};

fn s(v: &str) -> String {
    String::from(v)
}

fn source(kind: &str, path: &str) -> SourceText {
    SourceText {
        kind: s(kind),
        path: s(path),
        confidence: s("Exact"),
    }
}

fn target() -> TargetText {
    TargetText {
        language: Language::Rust,
        root: s("."),
        workspace: Some(s(".")),
        package: None,
        runtimes: vec![RuntimeText {
            runtime: s("rust"),
            version: s("Some(\"1.86.0\")"),
            source: source("rust_toolchain", "rust-toolchain.toml"),
            components: vec![s("clippy"), s("rustfmt")],
            targets: Vec::new(),
        }],
        package_manager: Some(PackageManagerText {
            family: s("cargo"),
            version: s("None"),
            ownership_root: s("."),
            source: source("cargo_manifest", "Cargo.toml"),
        }),
        signal_tools: vec![SignalToolText {
            tool: s("cargo-llvm-cov"),
            version: s("Some(\"0.6.16\")"),
            provider: s("cargo"),
            scope: s("Repository"),
            provisioning: s("Image"),
            modifies_checkout: false,
            signals: vec![SignalKind::Coverage, SignalKind::Test],
            source: source("catalog", ".ayni.toml"),
        }],
        system_requirements: vec![SystemRequirementText {
            kind: s("Library"),
            name: s("libssl"),
            provisioning: s("Image"),
            source: source("catalog", ".ayni.toml"),
        }],
        dependency_locks: vec![DependencyLockText {
            path: s("Cargo.lock"),
            digest: s("sha256:1"),
            owner_root: s("."),
            source: source("cargo_lock", "Cargo.lock"),
        }],
    }
}

fn plan() -> EnvironmentPlanText {
    EnvironmentPlanText {
        name: s("fixture"),
        contract_digest: s("sha256:c"),
        platforms: vec![PlatformText {
            os: s("Linux"),
            architecture: s("X86_64"),
            libc: s("Glibc"),
        }],
        tools: vec![ToolText {
            tool: s("mise"),
            version: s("Some(\"2024.1\")"),
            source: source("mise", "mise.toml"),
        }],
        debian_packages: vec![DebianPackageText {
            package: s("git"),
            source: source("apt", ".ayni.toml"),
        }],
        docker: DockerAccess::Socket,
        network: NetworkAccess::Disabled,
        targets: vec![target()],
        warnings: vec![DiagnosticText {
            code: s("W1"),
            message: s("note"),
        }],
        conflicts: vec![ConflictText {
            code: s("C1"),
            message: s("disagree"),
            sources: vec![
                ConflictSourceText {
                    kind: s("mise"),
                    path: s("mise.toml"),
                    confidence: s("Exact"),
                    detail: Some(s("rust 1.85")),
                },
                ConflictSourceText {
                    kind: s("rust_toolchain"),
                    path: s("rust-toolchain.toml"),
                    confidence: s("Exact"),
                    detail: None,
                },
            ],
        }],
    }
}

#[test]
fn env_show_lists_every_section_of_the_plan() {
    let lines = [
        "environment plan fixture",
        "contract digest: sha256:c",
        "platforms:",
        "  - Linux/X86_64/Glibc",
        "repository tools:",
        "  - mise Some(\"2024.1\") [mise mise.toml Exact]",
        "Debian packages:",
        "  - git",
        "runtime capabilities: docker=Socket network=Disabled",
        "  warning: Docker socket access grants the environment control over the host Docker daemon",
        "targets:",
        "  - rust:.",
        "    workspace: .",
        "    runtime: rust Some(\"1.86.0\") [rust_toolchain rust-toolchain.toml Exact]",
        "      components: clippy, rustfmt",
        "    package manager: cargo None owner=. [cargo_manifest Cargo.toml Exact]",
        "    tool: cargo-llvm-cov Some(\"0.6.16\") provider=cargo scope=Repository provisioning=Image modifies_checkout=false signals=[Coverage, Test] [catalog .ayni.toml Exact]",
        "    system: Library libssl provisioning=Image [catalog .ayni.toml Exact]",
        "    dependency lock: Cargo.lock sha256:1 owner=. [cargo_lock Cargo.lock Exact]",
        "warnings:",
        "  - W1: note",
        "conflicts:",
        "  - C1: disagree",
        "      source: mise mise.toml Exact (rust 1.85)",
        "      source: rust_toolchain rust-toolchain.toml Exact",
    ];
    let expected: String = lines.iter().map(|l| format!("{l}\n")).collect();
    assert_eq!(render_plan(&plan()), expected);
}

#[test]
fn empty_sections_are_left_out() {
    let mut bare = plan();
    bare.tools.clear();
    bare.debian_packages.clear();
    bare.warnings.clear();
    bare.conflicts.clear();
    bare.targets.clear();
    bare.docker = DockerAccess::Disabled;
    assert_eq!(
        render_plan(&bare),
        "environment plan fixture\ncontract digest: sha256:c\nplatforms:\n  - Linux/X86_64/Glibc\nruntime capabilities: docker=Disabled network=Disabled\ntargets:\n"
    );
}

#[test]
fn locks_hash_each_named_source_once() {
    assert_eq!(
        source_paths(&plan()),
        vec![s(".ayni.toml"), s("Cargo.lock"), s("Cargo.toml"), s("mise.toml"), s("rust-toolchain.toml")]
    );
    assert_eq!(
        source_digest(b"abc"),
        "sha256:ba7816bf8f01cfea414140de5dae2223b00361a396177a9cb410ff61f20015ad"
    );
}

#[test]
fn changed_dependency_locks_and_sources_are_refused() {
    let targets = vec![target()];
    assert!(check_dependency_locks(&targets, &vec![(s("Cargo.lock"), s("sha256:1"))]).is_ok());
    assert_eq!(
        check_dependency_locks(&targets, &vec![(s("Cargo.lock"), s("sha256:2"))]),
        Err(s("dependency lock changed during locking: Cargo.lock"))
    );
    assert!(check_dependency_locks(&targets, &Vec::new()).is_err());

    let existing = vec![(s("a"), s("sha256:1"))];
    let merged = merge_source_digests(existing.clone(), &vec![(s("a"), s("sha256:1")), (s("b"), s("sha256:2"))])
        .expect("merged");
    assert_eq!(merged, vec![(s("a"), s("sha256:1")), (s("b"), s("sha256:2"))]);
    assert_eq!(
        merge_source_digests(existing, &vec![(s("a"), s("sha256:9"))]),
        Err(s("environment source changed during locking: a"))
    );
    assert!(lock_changed(None, "x"));
    assert!(lock_changed(Some("x"), "y"));
    assert!(!lock_changed(Some("x"), "x"));
}
