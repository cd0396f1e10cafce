use ayni::deps_graph::{analyze_deps, compile_rules, repo_relative_dir, visible_members, MemberInfo, MetadataNode};

fn member(id: &str, name: &str, dir: &str) -> MemberInfo {
    MemberInfo {
        id: String::from(id),
        name: String::from(name),
        dir: String::from(dir),
        dir_abs: format!("/repo/{dir}"),
    }
}

fn fixture() -> (Vec<MemberInfo>, Option<Vec<MetadataNode>>) {
    let members = vec![
        member("core 0.1.0", "ayni-core", "core"),
        member("adapters-rust 0.1.0", "ayni-adapters-rust", "adapters/rust"),
        member("cli 0.1.0", "ayni-cli", "cli"),
    ];
    let nodes = vec![
        MetadataNode { id: String::from("core 0.1.0"), deps: vec![String::from("adapters-rust 0.1.0")] },
        MetadataNode { id: String::from("adapters-rust 0.1.0"), deps: vec![String::from("cli 0.1.0")] },
        MetadataNode { id: String::from("cli 0.1.0"), deps: Vec::new() },
    ];
    (members, Some(nodes))
}

#[test]
fn deps_rule_matching_uses_repo_relative_member_dirs() {
    let (members, nodes) = fixture();
    let forbidden = vec![
        (String::from("adapters/*"), vec![String::from("cli")]),
        (String::from("core"), vec![String::from("adapters/*")]),
    ];
    let analysis = analyze_deps(&members, &nodes, None, None, "/repo", &forbidden).expect("analysis");

    assert_eq!(analysis.crate_count, 3);
    assert_eq!(analysis.edge_count, 2);
    assert_eq!(analysis.violation_count, 2);
    assert_eq!(analysis.offenders[0].from, "adapters/rust");
    assert_eq!(analysis.offenders[0].to, "cli");
    assert_eq!(analysis.offenders[0].rule, "adapters/* -> cli");
    assert_eq!(analysis.offenders[1].rule, "core -> adapters/*");
}

#[test]
fn scoped_package_keeps_outgoing_edges_to_non_visible_members() {
    let (members, nodes) = fixture();
    let forbidden = vec![(String::from("core"), vec![String::from("adapters/*")])];
    let analysis = analyze_deps(&members, &nodes, Some("ayni-core"), None, "/repo", &forbidden).expect("analysis");

    assert_eq!(analysis.crate_count, 1);
    assert_eq!(analysis.edge_count, 1);
    assert_eq!(analysis.violation_count, 1);
    assert_eq!(analysis.offenders.len(), 1);
    assert_eq!(analysis.offenders[0].from, "core");
    assert_eq!(analysis.offenders[0].to, "adapters/rust");
    assert_eq!(analysis.offenders[0].rule, "core -> adapters/*");
}

#[test]
fn unknown_package_scope_is_an_error() {
    let (members, nodes) = fixture();
    let error = analyze_deps(&members, &nodes, Some("missing"), None, "/repo", &Vec::new()).err().expect("error");
    assert_eq!(error, "package scope 'missing' was not found in cargo metadata");
}

#[test]
fn path_scopes_see_members_above_and_below() {
    let (members, _) = fixture();
    assert_eq!(visible_members(&members, None, Some("/repo/adapters/rust/src")).unwrap(), vec![1]);
    assert_eq!(visible_members(&members, None, Some("/repo/adapters")).unwrap(), vec![1]);
    assert_eq!(visible_members(&members, None, Some("/repo")).unwrap(), vec![0, 1, 2]);
    assert_eq!(visible_members(&members, Some("cli"), None).unwrap(), vec![2]);
}

#[test]
fn working_directory_limits_the_graph() {
    let (members, nodes) = fixture();
    let analysis = analyze_deps(&members, &nodes, None, None, "/repo/cli", &Vec::new()).expect("analysis");
    assert_eq!(analysis.crate_count, 1);
    assert_eq!(analysis.edge_count, 0);
}

#[test]
fn duplicate_edges_count_once_and_rules_compile_in_order() {
    let members = vec![member("a", "a", "a"), member("b", "b", "b")];
    let nodes = Some(vec![
        MetadataNode { id: String::from("a"), deps: vec![String::from("b"), String::from("b"), String::from("serde")] },
    ]);
    let forbidden = vec![(String::from("a"), vec![String::from("b"), String::from("*")])];
    let analysis = analyze_deps(&members, &nodes, None, None, "/repo", &forbidden).expect("analysis");
    assert_eq!(analysis.edge_count, 1);
    let rules: Vec<_> = analysis.offenders.iter().map(|o| o.rule.clone()).collect();
    assert_eq!(rules, vec![String::from("a -> *"), String::from("a -> b")]);
    assert!(compile_rules(&vec![(String::from("**a"), Vec::new())]).is_err());
}

#[test]
fn member_directories_are_repository_relative() {
    assert_eq!(repo_relative_dir("/repo", "/repo").unwrap(), ".");
    assert_eq!(repo_relative_dir("/repo", "/repo/crates/a").unwrap(), "crates/a");
    assert_eq!(
        repo_relative_dir("/repo", "/elsewhere").unwrap_err(),
        "workspace member /elsewhere is outside repo root /repo: prefix not found"
    );
}
