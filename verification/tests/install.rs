use ayni::install::{
    catalog_entry_requirement_note, fmt_cargo_install, fmt_go_install, fmt_node_package,
    fmt_npm_global, fmt_python_package, fmt_uv_tool, gitignore_with_ayni_entry, installer_summary,
    join_strings, root_label_for_install, root_slug_for_path, should_skip_install_language,
    version_check_summary, Installer, VersionCheck,
};
use ayni::vocabulary::Language;

#[test]
fn install_commands_name_their_versions() {
    assert_eq!(fmt_cargo_install("cargo-mutants", Some("25.0.0")), "install: cargo install cargo-mutants --version 25.0.0");
    assert_eq!(fmt_cargo_install("cargo-mutants", None), "install: cargo install cargo-mutants");
    assert_eq!(fmt_go_install("golang.org/x/tools/cmd/goimports", None), "install: go install golang.org/x/tools/cmd/goimports@latest");
    assert_eq!(fmt_go_install("example.com/tool", Some("v1.2.3")), "install: go install example.com/tool@v1.2.3");
    assert_eq!(fmt_npm_global("eslint", Some("9")), "install: npm install -g eslint@9");
    assert_eq!(fmt_npm_global("eslint", None), "install: npm install -g eslint");
    assert_eq!(fmt_node_package("vitest", Some("2.0.0"), true), "install: add devDependency vitest@2.0.0 via package manager");
    assert_eq!(fmt_node_package("left-pad", None, false), "install: add dependency left-pad via package manager");
    assert_eq!(fmt_python_package("pytest", Some("8.0"), true), "install: add Python devDependency pytest==8.0 via package manager");
    assert_eq!(fmt_python_package("requests", None, false), "install: add Python dependency requests via package manager");
    assert_eq!(fmt_uv_tool("ruff", Some("0.5.0")), "install: uv tool install ruff==0.5.0");
    assert_eq!(fmt_uv_tool("ruff", None), "install: uv tool install ruff");
}

#[test]
fn installers_are_summarised() {
    assert_eq!(installer_summary(&Installer::Bundled), "install: (bundled with toolchain)");
    assert_eq!(
        installer_summary(&Installer::Rustup { component: String::from("clippy") }),
        "install: rustup component add clippy"
    );
    assert_eq!(
        installer_summary(&Installer::GradleTask { task: String::from("detekt") }),
        "install: provided by Gradle task `detekt`"
    );
    assert_eq!(installer_summary(&Installer::PythonRuntime), "install: (python runtime on PATH)");
    assert_eq!(
        installer_summary(&Installer::Custom {
            program: String::from("brew"),
            args: vec![String::from("install"), String::from("mise")],
        }),
        "install: brew install mise"
    );
    assert_eq!(
        installer_summary(&Installer::Cargo {
            crate_name: String::from("cargo-llvm-cov"),
            version: None,
        }),
        "install: cargo install cargo-llvm-cov"
    );
}

#[test]
fn requirement_notes_join_the_check_and_the_installer() {
    let check = VersionCheck {
        command: String::from("cargo"),
        args: vec![String::from("llvm-cov"), String::from("--version")],
        contains: Some(String::from("cargo-llvm-cov")),
    };
    assert_eq!(
        version_check_summary(&check),
        "check `cargo llvm-cov --version` → stdout contains \"cargo-llvm-cov\""
    );
    let plain = VersionCheck {
        command: String::from("rustc"),
        args: vec![String::from("--version")],
        contains: None,
    };
    assert_eq!(version_check_summary(&plain), "check `rustc --version` → succeeds");
    assert_eq!(
        catalog_entry_requirement_note(&Some(plain), &Installer::Bundled),
        "check `rustc --version` → succeeds · install: (bundled with toolchain)"
    );
    assert_eq!(
        catalog_entry_requirement_note(&None, &Installer::PythonRuntime),
        "install: (python runtime on PATH)"
    );
    assert_eq!(join_strings(&Vec::new(), " "), "");
}

#[test]
fn roots_are_labelled_and_slugged() {
    assert_eq!(root_label_for_install("."), "workspace root");
    assert_eq!(root_label_for_install("crates/api"), "crates/api");
    assert_eq!(root_slug_for_path("."), "workspace");
    assert_eq!(root_slug_for_path("crates/api"), "crates__api");
    assert_eq!(root_slug_for_path("a\\b/c"), "a__b__c");
}

#[test]
fn install_skips_languages_not_asked_for_or_not_enabled() {
    assert!(should_skip_install_language(Language::Go, true, Some(Language::Rust)));
    assert!(!should_skip_install_language(Language::Rust, true, Some(Language::Rust)));
    assert!(should_skip_install_language(Language::Rust, false, None));
    assert!(!should_skip_install_language(Language::Python, true, None));
}

#[test]
fn gitignore_gains_the_ayni_entry_once() {
    assert_eq!(gitignore_with_ayni_entry(""), Some(String::from(".ayni/\n")));
    assert_eq!(gitignore_with_ayni_entry("target/"), Some(String::from("target/\n.ayni/\n")));
    assert_eq!(gitignore_with_ayni_entry("target/\n"), Some(String::from("target/\n.ayni/\n")));
    assert_eq!(gitignore_with_ayni_entry("target/\n  .ayni  \n"), None);
    assert_eq!(gitignore_with_ayni_entry(".ayni/"), None);
    let once = gitignore_with_ayni_entry("node_modules\r\n").expect("added");
    assert_eq!(gitignore_with_ayni_entry(&once), None);
}

#[test]
fn missing_and_outdated_requirements_are_not_current() {
    use_readiness();
}

fn use_readiness() {
    use_status(ayni::install::ToolStatus::Missing, ayni::install::InstallRequirementStatus::Missing, "missing");
    use_status(ayni::install::ToolStatus::Outdated, ayni::install::InstallRequirementStatus::Outdated, "outdated");
    use_status(ayni::install::ToolStatus::Current, ayni::install::InstallRequirementStatus::Current, "current");
}

fn use_status(tool: ayni::install::ToolStatus, want: ayni::install::InstallRequirementStatus, name: &str) {
    let status = ayni::install::readiness_status(tool);
    assert_eq!(status, want);
    assert_eq!(ayni::install::readiness_status_name(status), name);
}
