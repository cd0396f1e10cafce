use ayni::environment_plan::{DependencyLockText, SourceText};
use ayni::preparation::{
    cargo_scaffolds, cargo_target_directory, fetch_command, preparation_environment,
    preparation_inputs, preparation_owner, require_cargo_lock, ScaffoldFacts,
};

fn source(kind: &str, path: &str) -> SourceText {
    SourceText {
        kind: String::from(kind),
        path: String::from(path),
        confidence: String::from("Exact"),
    }
}

fn lock(path: &str, digest: &str, owner: &str) -> DependencyLockText {
    DependencyLockText {
        path: String::from(path),
        digest: String::from(digest),
        owner_root: String::from(owner),
        source: source("cargo_lock", path),
    }
}

#[test]
fn plans_locked_cargo_fetch_and_rejects_missing_lock() {
    let zeros = format!("sha256:{}", "0".repeat(64));
    let ones = format!("sha256:{}", "1".repeat(64));
    let locks = vec![lock("Cargo.toml", &zeros, "."), lock("Cargo.lock", &ones, ".")];
    let owner = preparation_owner(&None, ".");
    assert_eq!(owner, ".");
    let inputs = preparation_inputs(&owner, &locks);
    assert_eq!(inputs.len(), 2);
    assert!(require_cargo_lock(&owner, &inputs).is_ok());
    let command = fetch_command(&owner);
    assert_eq!(command.program, "cargo");
    assert_eq!(command.args, ["fetch", "--locked"]);
    let environment = preparation_environment(".");
    assert_eq!(environment[1], (String::from("CARGO_NET_OFFLINE"), String::from("true")));
    assert_eq!(environment[0], (String::from("CARGO_BUILD_JOBS"), String::from("1")));
    assert_eq!(environment[2].1, cargo_target_directory("."));

    let without_lock = preparation_inputs(&owner, &Vec::new());
    assert_eq!(
        require_cargo_lock(&owner, &without_lock),
        Err(String::from("Cargo dependency preparation requires ./Cargo.lock"))
    );
}

#[test]
fn cargo_target_cache_is_stable_and_isolated_by_target_root() {
    let root = cargo_target_directory(".");
    assert_eq!(root, cargo_target_directory("."));
    assert_ne!(root, cargo_target_directory("crates/member"));
    assert!(root.starts_with("/home/ayni/.cache/cargo/targets/"));
    assert_eq!(root.trim_start_matches("/home/ayni/.cache/cargo/targets/").len(), 64);
    assert_eq!(
        cargo_target_directory("abc"),
        "/home/ayni/.cache/cargo/targets/ba7816bf8f01cfea414140de5dae2223b00361a396177a9cb410ff61f20015ad"
    );
}

#[test]
fn workspace_locks_belong_to_the_workspace() {
    let locks = vec![
        lock("crates/a/Cargo.lock", "sha256:a", "crates/a"),
        lock("Cargo.lock", "sha256:w", "."),
    ];
    let owner = preparation_owner(&Some(String::from(".")), "crates/a");
    let inputs = preparation_inputs(&owner, &locks);
    assert_eq!(inputs.len(), 1);
    assert_eq!(inputs[0].path, "Cargo.lock");
    let member = preparation_inputs("crates/a", &locks);
    assert!(require_cargo_lock("crates/a", &member).is_ok());
}

#[test]
fn scaffolds_cover_every_declared_target_once() {
    let manifests = vec![
        ScaffoldFacts {
            path: String::from("Cargo.toml"),
            has_package: true,
            lib_path: Some(String::from("src/lib.rs")),
            target_paths: vec![String::from("tools\\gen.rs")],
            build: Some(String::from("build.rs")),
        },
        ScaffoldFacts {
            path: String::from("crates/api/Cargo.toml"),
            has_package: true,
            lib_path: None,
            target_paths: Vec::new(),
            build: None,
        },
        ScaffoldFacts {
            path: String::from("crates/virtual/Cargo.toml"),
            has_package: false,
            lib_path: None,
            target_paths: vec![String::from("x.rs")],
            build: None,
        },
    ];
    assert_eq!(
        cargo_scaffolds(&manifests),
        vec![
            String::from("build.rs"),
            String::from("crates/api/src/lib.rs"),
            String::from("crates/api/src/main.rs"),
            String::from("src/lib.rs"),
            String::from("src/main.rs"),
            String::from("tools/gen.rs"),
        ]
    );
}
