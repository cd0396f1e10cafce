use ayni::evidence::{ChangeKind, ChangedPath};
use ayni::git_changes::{
    change_for_workspace, collect_workspace_changes, normalize_git_path, nul_strings,
    parse_name_status, path_for_workspace,
};

#[test]
fn parses_nul_delimited_changes_and_renames() {
    let changes = parse_name_status(b"M\0src/a.rs\0R100\0old.rs\0new.rs\0").expect("changes");
    assert_eq!(changes.len(), 2);
    assert_eq!(changes[0].kind, ChangeKind::Modified);
    assert_eq!(changes[0].path, "src/a.rs");
    assert_eq!(changes[1].kind, ChangeKind::Renamed);
    assert_eq!(changes[1].previous_path.as_deref(), Some("old.rs"));
    assert_eq!(changes[1].path, "new.rs");
}

#[test]
fn parses_tab_separated_name_status_variant() {
    let changes = parse_name_status(b"A\tpath with spaces.rs\0").expect("changes");
    assert_eq!(changes[0].kind, ChangeKind::Added);
    assert_eq!(changes[0].path, "path with spaces.rs");
}

#[test]
fn rejects_backslash_paths_instead_of_reinterpreting_them() {
    let error = parse_name_status(b"A\0path\\with\\backslashes.rs\0")
        .expect_err("backslashes are valid Unix filename bytes, not separators");
    assert!(error.contains("unsafe path"));
}

#[test]
fn malformed_records_are_refused() {
    assert_eq!(parse_name_status(b"M\0").unwrap_err(), "Git change status is missing a path");
    assert_eq!(
        parse_name_status(b"C75\0a.rs\0").unwrap_err(),
        "Git rename/copy status is missing a destination"
    );
    assert_eq!(parse_name_status(b"\tx\0").unwrap_err(), "Git emitted an empty change status");
    assert_eq!(
        parse_name_status(b"U\0x\0").unwrap_err(),
        "unsupported Git change status 'U'; resolve the worktree state first"
    );
    assert_eq!(
        parse_name_status(b"M\0\xff\0").unwrap_err(),
        "Git returned a non-UTF-8 repository path"
    );
    assert!(parse_name_status(b"").unwrap().is_empty());
}

#[test]
fn nul_strings_skip_empty_pieces() {
    assert_eq!(
        nul_strings(b"\0a\0\0bc\0d").unwrap(),
        vec![String::from("a"), String::from("bc"), String::from("d")]
    );
}

#[test]
fn unsafe_paths_are_refused() {
    assert_eq!(normalize_git_path("src/lib.rs").unwrap(), "src/lib.rs");
    let error = normalize_git_path("").unwrap_err();
    assert_eq!(error.message, "Git returned an unsafe path: \"\"");
    assert_eq!(error.kind, ayni::operations::ApplicationErrorKind::InvalidInput);
    assert!(normalize_git_path("/etc/passwd").is_err());
    assert!(normalize_git_path("a/../b").is_err());
    assert!(normalize_git_path("..a/b").is_ok());
}

#[test]
fn workspace_paths_drop_the_prefix() {
    assert_eq!(path_for_workspace("a/b.rs", ""), Some(String::from("a/b.rs")));
    assert_eq!(path_for_workspace("ws/b.rs", "ws"), Some(String::from("b.rs")));
    assert_eq!(path_for_workspace("wsx/b.rs", "ws"), None);
    assert_eq!(path_for_workspace("ws", "ws"), None);
}

fn change(kind: ChangeKind, path: &str, previous: Option<&str>) -> ChangedPath {
    ChangedPath { kind, path: String::from(path), previous_path: previous.map(String::from) }
}

#[test]
fn renames_across_the_workspace_boundary_become_additions_or_deletions() {
    let into = change_for_workspace(change(ChangeKind::Renamed, "ws/new.rs", Some("other/old.rs")), "ws");
    assert_eq!(into, vec![change(ChangeKind::Added, "new.rs", None)]);
    let out_of = change_for_workspace(change(ChangeKind::Renamed, "other/new.rs", Some("ws/old.rs")), "ws");
    assert_eq!(out_of, vec![change(ChangeKind::Deleted, "old.rs", None)]);
    let copied_out = change_for_workspace(change(ChangeKind::Copied, "other/new.rs", Some("ws/old.rs")), "ws");
    assert!(copied_out.is_empty());
    let inside = change_for_workspace(change(ChangeKind::Copied, "ws/b.rs", Some("ws/a.rs")), "ws");
    assert_eq!(inside, vec![change(ChangeKind::Copied, "b.rs", Some("a.rs"))]);
}

#[test]
fn workspace_changes_are_listed_once_in_order() {
    let untracked = vec![String::from("ws/z.rs"), String::from("ws/a.rs"), String::from("other/x.rs")];
    let changes = collect_workspace_changes(b"M\0ws/m.rs\0A\0ws/a.rs\0", &untracked, "ws").unwrap();
    assert_eq!(
        changes,
        vec![
            change(ChangeKind::Added, "a.rs", None),
            change(ChangeKind::Added, "z.rs", None),
            change(ChangeKind::Modified, "m.rs", None),
        ]
    );
    assert!(collect_workspace_changes(b"", &vec![String::from("../x")], "").is_err());
}
