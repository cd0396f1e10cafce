use ayni::versions::{is_exact_cargo_version, is_exact_rust_version, is_iso_date, version_kind, VersionKind};

#[test]
fn rejects_floating_rust_channels_as_exact_versions() {
    assert!(!is_exact_rust_version("stable"));
    assert!(!is_exact_rust_version("nightly"));
    assert!(is_exact_rust_version("1.85.1"));
    assert!(is_exact_rust_version("nightly-2026-08-14"));
}

#[test]
fn accepts_exact_cargo_prerelease_versions() {
    assert!(is_exact_cargo_version("1.2.3-beta.1"));
    assert!(!is_exact_cargo_version("latest"));
}

#[test]
fn beta_channels_pinned_to_a_date_are_exact() {
    assert!(is_exact_rust_version("beta-2025-01-02"));
    assert!(!is_exact_rust_version("beta-2025-1-02"));
    assert!(!is_exact_rust_version("1.85"));
    assert!(!is_exact_rust_version("1.85.x"));
    assert!(!is_exact_rust_version("1..1"));
}

#[test]
fn iso_dates_need_four_two_two_digits() {
    assert!(is_iso_date("2026-08-14"));
    assert!(!is_iso_date("2026-8-14"));
    assert!(!is_iso_date("2026-08-14-01"));
    assert!(!is_iso_date("20a6-08-14"));
}

#[test]
fn toolchain_selectors_are_exact_only_when_pinned() {
    assert_eq!(version_kind("1.85.1"), VersionKind::Exact);
    assert_eq!(version_kind("1.85.1-x86_64-unknown-linux-gnu"), VersionKind::Exact);
    assert_eq!(version_kind("nightly-2026-08-14"), VersionKind::Exact);
    assert_eq!(version_kind("stable"), VersionKind::Selector);
    assert_eq!(version_kind("1.85"), VersionKind::Selector);
    assert_eq!(version_kind("1.85.1-"), VersionKind::Selector);
    assert_eq!(version_kind("nightly-2026"), VersionKind::Selector);
}
