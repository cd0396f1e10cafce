use ayni::agents::{managed_block, upsert_managed_block, MANAGED_BEGIN, MANAGED_END};

#[test]
fn agents_managed_guidance_describes_discovery_policy_and_quality_workflow() {
    let managed = managed_block();

    for guidance in [
        "`ayni help`",
        "`ayni help <command> [subcommand]`",
        "`ayni <command> --help`",
        "`.ayni.toml` as the authoritative repository quality policy",
        "`ayni contract show`",
        "ayni verify <signal> [selectors]",
        "full repository analysis as the completion gate",
        "`.ayni/last/signals.json`",
        "narrowest supported `ayni verify <signal>`",
        "exact verification command supplied by a finding",
        "incomplete artifacts as failure",
        "never loosen `.ayni.toml` merely",
        "detailed, typed signal results",
        "completion state and target accounting",
        "exact verification command",
    ] {
        assert!(managed.contains(guidance), "missing guidance: {guidance}");
    }
    assert!(!managed.contains("ayni <command> help"));
    assert!(!managed.contains("schema-v2"));
    assert!(!managed.contains("deltas"));
    assert!(!managed.contains("and repair the listed offenders and\nand repair"));
}

#[test]
fn upsert_managed_block_appends_when_missing() {
    let existing = "# Repository Rules\n\nKeep this text.\n";
    let updated = upsert_managed_block(existing, &managed_block());
    assert!(updated.contains("Keep this text."));
    assert!(updated.contains(MANAGED_BEGIN));
    assert!(updated.contains(MANAGED_END));
}

#[test]
fn agents_sync_creates_managed_file_when_absent() {
    assert_eq!(upsert_managed_block("", &managed_block()), managed_block());
}

#[test]
fn agents_sync_replaces_only_managed_section_and_preserves_user_content() {
    let existing = format!("head\n\n{MANAGED_BEGIN}\nold\n{MANAGED_END}\n\ntail\n");
    let updated = upsert_managed_block(&existing, &managed_block());
    assert!(updated.starts_with("head\n\n"));
    assert!(updated.ends_with("tail\n"));
    assert!(updated.contains("## Code quality guidance for AI agents"));
    assert!(!updated.contains("\nold\n"));
}

#[test]
fn agents_sync_is_idempotent() {
    let once = upsert_managed_block("", &managed_block());
    let twice = upsert_managed_block(&once, &managed_block());
    assert_eq!(once, twice);
    let with_user = upsert_managed_block("user notes", &managed_block());
    assert_eq!(with_user, format!("user notes\n\n{}", managed_block()));
    assert_eq!(upsert_managed_block(&with_user, &managed_block()), with_user);
}

#[test]
fn managed_block_is_framed_by_markers_and_ends_with_newline() {
    let block = managed_block();
    assert!(block.starts_with(MANAGED_BEGIN));
    assert!(block.ends_with(&format!("{MANAGED_END}\n")));
}

#[test]
fn end_marker_before_begin_appends_a_new_block() {
    let existing = format!("{MANAGED_END}\n{MANAGED_BEGIN}\n");
    let updated = upsert_managed_block(&existing, "NEW\n");
    assert_eq!(updated, format!("{existing}\nNEW\n"));
}

#[test]
fn replacement_keeps_text_after_block_and_restores_final_newline() {
    let existing = format!("a{MANAGED_BEGIN}x{MANAGED_END}\n\n\nb");
    assert_eq!(upsert_managed_block(&existing, "M\n"), "aM\nb\n");
    let without_tail = format!("{MANAGED_BEGIN}x{MANAGED_END}");
    assert_eq!(upsert_managed_block(&without_tail, "M\n"), "M\n");
}

#[test]
fn refreshing_a_replaced_block_again_changes_nothing() {
    let existing = format!("head\n\n{MANAGED_BEGIN}\nold\n{MANAGED_END}\n\n\ntail");
    let once = upsert_managed_block(&existing, &managed_block());
    assert_eq!(once, format!("head\n\n{}tail\n", managed_block()));
    assert_eq!(upsert_managed_block(&once, &managed_block()), once);
}

#[test]
fn text_without_a_block_is_kept_before_the_appended_block() {
    let existing = "notes without a final newline";
    let block = managed_block();
    let updated = upsert_managed_block(existing, &block);
    assert!(updated.starts_with(existing));
    assert!(updated.ends_with(&block));
    assert_eq!(updated, format!("{existing}\n\n{block}"));
}
