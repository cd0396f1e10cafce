use ayni::resolution::{cargo_tool_query, mise_arguments, mise_outcome, runtime_query, ExactRule};
use ayni::toolchain::VersionRequirement;

fn exact_text(r: Result<VersionRequirement, String>) -> Result<String, String> {
    match r {
        Ok(VersionRequirement::Exact(v)) => Ok(v),
        Ok(_) => Err(String::from("not exact")),
        Err(e) => Err(e),
    }
}

#[test]
fn runtime_queries_follow_the_requirement() {
    assert_eq!(runtime_query(&VersionRequirement::Exact(String::from("1.85.0"))), Ok(None));
    assert_eq!(
        runtime_query(&VersionRequirement::Selector(String::from("stable"))),
        Ok(Some(String::from("rust@stable")))
    );
    assert_eq!(
        runtime_query(&VersionRequirement::Minimum(String::from("1.78"))),
        Ok(Some(String::from("rust@1.78")))
    );
    assert_eq!(
        runtime_query(&VersionRequirement::Unresolved(String::from("no Rust toolchain or Cargo rust-version"))),
        Err(String::from("cannot resolve rust: no Rust toolchain or Cargo rust-version"))
    );
}

#[test]
fn cargo_tool_queries_name_the_tool() {
    let name = "rust-code-analysis-cli";
    assert_eq!(cargo_tool_query(name, &VersionRequirement::Exact(String::from("0.8.5"))), None);
    assert_eq!(
        cargo_tool_query(name, &VersionRequirement::Unresolved(String::from("catalog does not pin"))),
        Some(String::from("cargo:rust-code-analysis-cli"))
    );
    assert_eq!(
        cargo_tool_query(name, &VersionRequirement::Selector(String::from("^0.0"))),
        Some(String::from("cargo:rust-code-analysis-cli@^0.0"))
    );
    assert_eq!(
        cargo_tool_query(name, &VersionRequirement::Minimum(String::from("0.0.25"))),
        Some(String::from("cargo:rust-code-analysis-cli@0.0.25"))
    );
}

#[test]
fn mise_is_asked_without_repository_configuration() {
    assert_eq!(mise_arguments("rust@stable"), ["--no-config", "--no-env", "--no-hooks", "latest", "rust@stable"]);
}

#[test]
fn mise_answers_settle_only_exact_versions() {
    assert_eq!(exact_text(mise_outcome("rust", "rust@stable", true, b"1.86.0\n", ExactRule::RustToolchain)), Ok(String::from("1.86.0")));
    assert_eq!(
        exact_text(mise_outcome("rust", "rust@nightly", true, b"nightly\n", ExactRule::RustToolchain)),
        Err(String::from("mise did not return an exact version for rust@nightly: nightly"))
    );
    assert_eq!(
        exact_text(mise_outcome("rust", "rust@stable", false, b"", ExactRule::RustToolchain)),
        Err(String::from("mise could not resolve rust@stable"))
    );
    let non_utf8 = exact_text(mise_outcome("rust", "rust@stable", true, &[0xff, 0xfe], ExactRule::RustToolchain))
        .err()
        .expect("error");
    assert!(non_utf8.starts_with("mise returned non-UTF-8 output for rust: "));
    assert_eq!(
        exact_text(mise_outcome("cargo-llvm-cov", "cargo:cargo-llvm-cov", true, b" 0.8.5-beta.1 \n", ExactRule::CargoPackage)),
        Ok(String::from("0.8.5-beta.1"))
    );
    assert!(exact_text(mise_outcome("cargo-llvm-cov", "cargo:cargo-llvm-cov", true, b"latest", ExactRule::CargoPackage)).is_err());
}
