use ayni::cargo_topology::{
    assemble_packages, classify_manifest, compile_cargo_patterns, package_dependencies,
    relevant_entry, resolve_dependency, workspace_dependency_aliases, DependencyEntry,
    ManifestClassification, ManifestFacts, WorkspaceMembership,
};
use ayni::evidence::{ChangeKind, ChangedPath};
use ayni::selection::rust_contribution;
use ayni::vocabulary::SignalKind;

fn entry(name: &str, workspace: bool, package: Option<&str>) -> DependencyEntry {
    DependencyEntry {
        name: String::from(name),
        workspace,
        package: package.map(String::from),
    }
}

fn facts(name: Option<&str>, dependencies: Vec<DependencyEntry>) -> ManifestFacts {
    ManifestFacts {
        package_name: name.map(String::from),
        dependencies,
    }
}

fn patterns(values: &[&str]) -> Option<Vec<Option<String>>> {
    Some(values.iter().map(|v| Some(String::from(*v))).collect())
}

fn membership(members: &[&str], excludes: &[&str]) -> WorkspaceMembership {
    WorkspaceMembership {
        members: compile_cargo_patterns(&patterns(members)).expect("members"),
        excludes: compile_cargo_patterns(&patterns(excludes)).expect("excludes"),
    }
}

#[test]
fn alias_workspace_members_feed_the_reverse_closure() {
    let aliases = workspace_dependency_aliases(&vec![(String::from("alias"), Some(String::from("a")))]);
    let workspace = membership(&["a", "b", "c"], &[]);
    let manifests = vec![
        (".", facts(Some("root"), Vec::new())),
        ("a", facts(Some("a"), Vec::new())),
        ("b", facts(Some("b"), vec![entry("alias", true, None)])),
        ("c", facts(Some("c"), vec![entry("b", false, None)])),
    ];
    let classified: Vec<ManifestClassification> = manifests
        .iter()
        .map(|(dir, f)| classify_manifest(f, dir, dir, &workspace, &aliases).expect("classified"))
        .collect();
    let (packages, nonmembers) = assemble_packages(classified);
    let names: Vec<&str> = packages.iter().map(|p| p.name.as_str()).collect();
    assert_eq!(names, vec!["a", "b", "c", "root"]);
    assert_eq!(packages[1].deps, vec![String::from("a")]);
    assert!(nonmembers.is_empty());

    let contribution = rust_contribution(
        "a",
        &vec![SignalKind::Test],
        &vec![ChangedPath {
            kind: ChangeKind::Modified,
            path: String::from("a/src/lib.rs"),
            previous_path: None,
        }],
        &vec![true],
        &packages,
        &nonmembers,
        ".",
    );
    let selected: Vec<&str> = contribution
        .selected_checks
        .iter()
        .filter_map(|check| check.package.as_deref())
        .collect();
    assert_eq!(selected, vec!["a", "b", "c"]);
}

#[test]
fn manifests_outside_the_members_are_nonmembers() {
    let workspace = membership(&["crates/*"], &["crates/legacy"]);
    let aliases = Vec::new();
    let member = classify_manifest(&facts(Some("api"), Vec::new()), "crates/api", "crates/api", &workspace, &aliases);
    assert!(matches!(member, Ok(ManifestClassification::Member(_))));
    let excluded = classify_manifest(&facts(Some("legacy"), Vec::new()), "crates/legacy", "crates/legacy", &workspace, &aliases);
    assert!(matches!(excluded, Ok(ManifestClassification::Nonmember(dir)) if dir == "crates/legacy"));
    let nested = classify_manifest(&facts(Some("deep"), Vec::new()), "crates/api/deep", "crates/api/deep", &workspace, &aliases);
    assert!(matches!(nested, Ok(ManifestClassification::Nonmember(_))));
    let virtual_manifest = classify_manifest(&facts(None, Vec::new()), "tools", "tools", &workspace, &aliases);
    assert!(matches!(virtual_manifest, Ok(ManifestClassification::Virtual)));
    assert!(workspace.includes("."));

    let (packages, nonmembers) = assemble_packages(vec![
        ManifestClassification::Nonmember(String::from("z")),
        ManifestClassification::Nonmember(String::from("b")),
        ManifestClassification::Nonmember(String::from("z")),
    ]);
    assert!(packages.is_empty());
    assert_eq!(nonmembers, vec![String::from("b"), String::from("z")]);
}

#[test]
fn dependency_tables_name_workspace_packages_once() {
    let aliases = workspace_dependency_aliases(&vec![
        (String::from("core"), Some(String::from("ayni-core"))),
        (String::from("util"), None),
    ]);
    assert_eq!(resolve_dependency(&entry("core", true, None), &aliases), Ok(String::from("ayni-core")));
    assert_eq!(resolve_dependency(&entry("renamed", false, Some("real")), &aliases), Ok(String::from("real")));
    assert_eq!(
        resolve_dependency(&entry("missing", true, None), &aliases),
        Err(String::from("workspace dependency alias \"missing\" is not declared"))
    );
    assert_eq!(
        package_dependencies(&vec![entry("util", true, None), entry("serde", false, None), entry("util", false, None)], &aliases),
        Ok(vec![String::from("serde"), String::from("util")])
    );
    assert!(package_dependencies(&vec![entry("serde", false, None), entry("nope", true, None)], &aliases).is_err());
}

#[test]
fn workspace_patterns_must_be_strings_that_glob_accepts() {
    assert_eq!(compile_cargo_patterns(&None), Ok(Vec::new()));
    assert_eq!(
        compile_cargo_patterns(&patterns(&["crates/*/", "tools//"])),
        Ok(vec![String::from("crates/*"), String::from("tools")])
    );
    assert_eq!(
        compile_cargo_patterns(&Some(vec![Some(String::from("a")), None])),
        Err(String::from("Cargo workspace path pattern must be a string"))
    );
    assert!(compile_cargo_patterns(&patterns(&["crates/[a"])).is_err());
}

#[test]
fn the_walk_skips_output_and_vcs_directories() {
    assert!(!relevant_entry(true, Some("target")));
    assert!(!relevant_entry(true, Some(".git")));
    assert!(relevant_entry(false, Some("target")));
    assert!(relevant_entry(true, Some("src")));
    assert!(relevant_entry(true, None));
}

#[test]
fn manifest_facts_list_dependency_entries_of_all_tables() {
    let m = ayni::toolchain::ManifestText {
        content: String::from(
            "[package]\nname = \"app\"\n[dependencies]\nshared.workspace = true\ncore = { package = \"app-core\", path = \"../core\" }\nserde = \"1\"\n[dev-dependencies]\nfixture = { path = \"../fixture\" }\n[target.'cfg(unix)'.build-dependencies]\nbuilder = { path = \"../builder\" }\n",
        ),
        file: String::from("/repo/crates/app/Cargo.toml"),
        path: String::from("crates/app/Cargo.toml"),
    };
    let facts = ayni::cargo_topology::manifest_facts(&m).expect("facts");
    assert_eq!(facts.package_name.as_deref(), Some("app"));
    let entries: Vec<(String, bool, Option<String>)> = facts
        .dependencies
        .into_iter()
        .map(|e| (e.name, e.workspace, e.package))
        .collect();
    assert_eq!(
        entries,
        vec![
            (String::from("core"), false, Some(String::from("app-core"))),
            (String::from("serde"), false, None),
            (String::from("shared"), true, None),
            (String::from("fixture"), false, None),
            (String::from("builder"), false, None),
        ]
    );
}

#[test]
fn workspace_facts_read_members_excludes_and_aliases() {
    let m = ayni::toolchain::ManifestText {
        content: String::from(
            "[workspace]\nmembers = [\"crates/*\"]\n[workspace.dependencies]\nshared = { path = \"shared\" }\nrenamed = { package = \"real-name\", path = \"real\" }\n",
        ),
        file: String::from("/repo/Cargo.toml"),
        path: String::from("Cargo.toml"),
    };
    let facts = ayni::cargo_topology::workspace_facts(&m).expect("facts");
    assert!(facts.declared);
    assert_eq!(facts.members, Some(vec![Some(String::from("crates/*"))]));
    assert_eq!(facts.excludes, None);
    assert_eq!(
        facts.aliases,
        vec![
            (String::from("renamed"), Some(String::from("real-name"))),
            (String::from("shared"), None),
        ]
    );
    let package = ayni::toolchain::ManifestText {
        content: String::from("[package]\nname = \"solo\"\n"),
        file: String::from("/repo/Cargo.toml"),
        path: String::from("Cargo.toml"),
    };
    assert!(!ayni::cargo_topology::workspace_facts(&package).expect("facts").declared);
    let broken = ayni::toolchain::ManifestText {
        content: String::from("[workspace"),
        file: String::from("/repo/Cargo.toml"),
        path: String::from("Cargo.toml"),
    };
    assert!(ayni::cargo_topology::workspace_facts(&broken).is_err());
}
