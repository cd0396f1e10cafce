use ayni::provenance::{
    is_excluded_output, managed_manifest_paths, path_before, source_fingerprint, without_outputs,
    EntryState, SourceEntry,
};

fn file(path: &str, executable: bool, contents: &[u8]) -> SourceEntry {
    SourceEntry {
        path: path.to_string(),
        state: EntryState::File { executable, contents: contents.to_vec() },
    }
}

fn entry(path: &str, state: EntryState) -> SourceEntry {
    SourceEntry { path: path.to_string(), state }
}

#[test]
fn fingerprint_frames_each_entry_and_hashes_the_stream() {
    assert_eq!(
        source_fingerprint(Vec::new()),
        "sha256:e3b0c44298fc1c149afbf4c8996fb92427ae41e4649b934ca495991b7852b855"
    );
    assert_eq!(
        source_fingerprint(vec![file("a", false, b"x")]),
        "sha256:9393196a5e787c908b586aaee2161daae8cfe7a17e4857a26ce2683802ff2ee4"
    );
    let expected = "sha256:d71b069b402424c4f7921df5662006198ae645c934bde003870451b083b750b4";
    let entries = vec![
        entry("dir", EntryState::Directory),
        entry("b", EntryState::Symlink(b"a".to_vec())),
        file("a", false, b"x"),
    ];
    assert_eq!(source_fingerprint(entries), expected);
    let repeated = vec![
        file("a", false, b"x"),
        entry("b", EntryState::Symlink(b"a".to_vec())),
        entry("dir", EntryState::Directory),
        file("a", false, b"x"),
    ];
    assert_eq!(source_fingerprint(repeated), expected);
}

#[test]
fn source_provenance_distinguishes_executable_files_and_symlinks() {
    let plain = source_fingerprint(vec![file("tool", false, b"run")]);
    let executable = source_fingerprint(vec![file("tool", true, b"run")]);
    let link = source_fingerprint(vec![entry("tool", EntryState::Symlink(b"run".to_vec()))]);
    let missing = source_fingerprint(vec![entry("tool", EntryState::Missing)]);
    let fifo = source_fingerprint(vec![entry("tool", EntryState::Special(String::from("fifo")))]);
    let all = [plain, executable, link, missing, fifo];
    for i in 0..all.len() {
        for j in 0..all.len() {
            assert_eq!(i == j, all[i] == all[j]);
        }
    }
}

#[test]
fn paths_are_ordered_by_components() {
    assert!(path_before("a/b", "a-b"));
    assert!(!path_before("a-b", "a/b"));
    assert!(path_before("a", "a/b"));
    assert!(!path_before("a/b", "a//b"));
    assert!(!path_before("a//b", "a/b"));
}

#[test]
fn source_provenance_includes_tracked_source_and_ignores_generated_output() {
    let outputs = vec![String::from(".ayni/last/signals.json"), String::from("target")];
    assert!(is_excluded_output(".ayni/last/signals.json", &outputs));
    assert!(is_excluded_output("target/debug/app", &outputs));
    assert!(!is_excluded_output("targets/app", &outputs));
    assert!(!is_excluded_output("src/lib.rs", &outputs));
    let entries = vec![
        file("src/lib.rs", false, b"pub fn f() {}\n"),
        file("target/debug/app", true, b"\x7fELF"),
        file(".ayni/last/signals.json", false, b"{}"),
    ];
    let kept = without_outputs(entries, &outputs);
    assert_eq!(kept.len(), 1);
    assert_eq!(kept[0].path, "src/lib.rs");
    assert_eq!(
        source_fingerprint(kept),
        source_fingerprint(vec![file("src/lib.rs", false, b"pub fn f() {}\n")])
    );
}

#[test]
fn managed_manifest_lists_normalized_paths_in_order() {
    assert_eq!(
        managed_manifest_paths(b"src/lib.rs\0Cargo.toml\0\0src/lib.rs\0"),
        Ok(vec![String::from("Cargo.toml"), String::from("src/lib.rs")])
    );
    assert_eq!(managed_manifest_paths(b"a//b\0a/b\0"), Ok(vec![String::from("a//b")]));
    for bad in [&b"../escape"[..], b"./here", b"/absolute", b"a/../b"] {
        assert_eq!(
            managed_manifest_paths(bad),
            Err(String::from("managed workspace manifest contains a non-normalized path"))
        );
    }
    assert_eq!(
        managed_manifest_paths(b"ok\0\xff\0../later"),
        Err(String::from("managed workspace manifest requires UTF-8 paths"))
    );
}
