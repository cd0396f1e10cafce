use ayni::storage::{
    render_storage_prune, render_storage_report, StorageImage, StoragePruneResult, StorageReport,
    StorageStateGeneration,
};

fn storage_fixture() -> StorageReport {
    StorageReport {
        engine: String::from("docker"),
        expected_image_tag: String::from("ayni-env:current"),
        current_image_present: true,
        images: vec![
            StorageImage {
                id: String::from("sha256:current"),
                tags: vec![String::from("ayni-env:current")],
                size: String::from("1.0 KiB"),
                current: true,
                prune_candidate: false,
            },
            StorageImage {
                id: String::from("sha256:stale"),
                tags: vec![String::from("ayni-env:stale")],
                size: String::from("2.0 KiB"),
                current: false,
                prune_candidate: true,
            },
        ],
        image_cumulative_size: String::from("3.0 KiB"),
        state_root: String::from(".ayni/environment"),
        state_root_size: String::from("768 B"),
        state_generations: vec![StorageStateGeneration {
            path: String::from(".ayni/environment/aaaaaaaaaaaaaaaa/bbbbbbbbbbbbbbbb"),
            size: String::from("512 B"),
            current: false,
            prune_candidate: true,
        }],
        classified_state_size: String::from("512 B"),
        unclassified_state_size: String::from("256 B"),
    }
}

#[test]
fn storage_human_output_distinguishes_cumulative_size_and_safe_candidates() {
    let report = storage_fixture();
    let rendered = render_storage_report(&report);
    assert!(rendered.contains("Expected image tag: ayni-env:current"));
    assert!(rendered.contains("Current image present: yes"));
    assert!(rendered.contains("Images: 2 (3.0 KiB cumulative)"));
    assert!(rendered.contains("State root: 768 B total logical data"));
    assert!(rendered.contains("Classified environment state: 1 path(s), 512 B"));
    assert!(rendered.contains(
        "Unclassified state: 256 B (included in state-root total; reported, never pruned)"
    ));
    assert!(rendered.contains("current"));
    assert!(rendered.contains("stale"));
    assert!(rendered.contains("shared layers and engine build cache are not attributed"));
    assert!(rendered.contains("engine-wide across repositories"));
    assert!(rendered.contains("  current    1.0 KiB  ayni-env:current\n"));
    assert!(rendered.contains("  stale      2.0 KiB  ayni-env:stale\n"));
}

#[test]
fn storage_human_output_does_not_claim_an_absent_current_image() {
    let mut report = storage_fixture();
    report.current_image_present = false;
    report.images.clear();
    report.image_cumulative_size = String::from("0 B");

    let rendered = render_storage_report(&report);

    assert!(rendered.contains("Expected image tag: ayni-env:current"));
    assert!(rendered.contains("Current image present: no; run `ayni env build` to create it"));
    assert!(!rendered.contains("Current image: ayni-env:current"));
    assert!(rendered.starts_with("Ayni environment storage (docker)\n"));
}

#[test]
fn prune_human_output_keeps_dry_run_explicit() {
    let result = StoragePruneResult {
        applied: false,
        images_requested: false,
        report: storage_fixture(),
        removed_images: 0,
        removed_state_generations: 0,
        failures: Vec::new(),
    };
    let rendered = render_storage_prune(&result);
    assert!(rendered.contains("dry run"));
    assert!(rendered.contains("No data was removed"));
    assert!(rendered.contains("Rerun with --apply"));
    assert!(rendered.contains("not selected; add --images"));
    assert!(rendered.contains("Engine-wide image candidates: 1 managed image(s)"));
    assert!(rendered.contains("  image    2.0 KiB  ayni-env:stale\n"));
}

#[test]
fn applied_prune_reports_removals_and_failures() {
    let result = StoragePruneResult {
        applied: true,
        images_requested: true,
        report: storage_fixture(),
        removed_images: 1,
        removed_state_generations: 0,
        failures: vec![(String::from(".ayni/environment/x"), String::from("busy"))],
    };
    let rendered = render_storage_prune(&result);
    assert!(rendered.starts_with("Ayni storage prune applied\n"));
    assert!(rendered.contains("explicitly selected with --images"));
    assert!(rendered.contains("Removed: 1 image(s), 0 managed-state path(s)\n"));
    assert!(rendered.contains("Failed: .ayni/environment/x — busy\n"));
    assert!(!rendered.contains("No data was removed"));
    assert!(rendered.ends_with("are retained.\n"));
}
