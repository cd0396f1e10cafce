use ayni::adapter::{ExecutionResolution, RustAdapter};
use ayni::analysis::CompletionStage;
use ayni::planning::{
    analyze_planning, ensure_language_enabled, plan_configured_target,
    plan_configured_targets_for_languages, selected_roots, RootProbe,
};
use ayni::vocabulary::{Checks, Language};

fn checks() -> Checks {
    Checks {
        test: true,
        coverage: false,
        size: false,
        complexity: false,
        deps: false,
        mutation: false,
    }
}

fn probe_of(root: &str, manifest: bool) -> RootProbe {
    let detection = RustAdapter::new().detect(root, manifest);
    RootProbe {
        adapter_available: true,
        detected: detection.detected,
        reason: detection.reason,
        execution: if manifest {
            Some(ExecutionResolution::direct("cargo", root, "test", 100))
        } else {
            None
        },
    }
}

#[test]
fn completion_planner_represents_an_undetected_configured_root() {
    let configured = vec![(Language::Rust, vec![String::from("missing")])];
    let roots = selected_roots(&configured, &vec![Language::Rust]);
    assert_eq!(roots, vec![(Language::Rust, String::from("missing"))]);
    let probes = vec![probe_of("/repo/missing", false)];
    let planned = plan_configured_targets_for_languages("/repo", &roots, probes);
    let planning = analyze_planning(planned, checks());

    assert_eq!(planning.expected_targets, 1);
    assert_eq!(planning.detected_targets, 0);
    assert!(planning.targets.is_empty());
    assert_eq!(planning.issues.len(), 1);
    assert_eq!(planning.issues[0].configured_root, "missing");
    assert_eq!(planning.issues[0].stage, CompletionStage::Detection);
    assert_eq!(planning.issues[0].message, "Cargo.toml not found at /repo/missing");
}

#[test]
fn selection_keeps_policy_order_and_an_empty_selection_takes_all() {
    let configured = vec![
        (Language::Rust, vec![String::from("."), String::from("tools")]),
        (Language::Go, vec![String::from("svc")]),
    ];
    assert_eq!(
        selected_roots(&configured, &Vec::new()),
        vec![
            (Language::Rust, String::from(".")),
            (Language::Rust, String::from("tools")),
            (Language::Go, String::from("svc")),
        ]
    );
    assert_eq!(
        selected_roots(&configured, &vec![Language::Go]),
        vec![(Language::Go, String::from("svc"))]
    );
}

#[test]
fn every_probe_outcome_is_planned() {
    let unavailable = plan_configured_target(
        "/repo",
        Language::Kotlin,
        "app",
        RootProbe {
            adapter_available: false,
            detected: true,
            reason: None,
            execution: None,
        },
    );
    assert!(!unavailable.detected);
    assert_eq!(unavailable.issue.as_ref().unwrap().message, "kotlin adapter is unavailable");

    let silent = plan_configured_target(
        "/repo",
        Language::Go,
        ".",
        RootProbe {
            adapter_available: true,
            detected: false,
            reason: None,
            execution: None,
        },
    );
    assert_eq!(
        silent.issue.as_ref().unwrap().message,
        "configured go root was not detected at /repo/."
    );

    let unresolved = plan_configured_target(
        "/repo",
        Language::Rust,
        "crates/api",
        RootProbe {
            adapter_available: true,
            detected: true,
            reason: None,
            execution: None,
        },
    );
    assert!(unresolved.detected);
    let issue = unresolved.issue.as_ref().unwrap();
    assert_eq!(issue.stage, CompletionStage::Resolution);
    assert_eq!(issue.message, "unable to resolve execution for configured rust root /repo/crates/api");

    let ready = plan_configured_target("/repo", Language::Rust, ".", probe_of("/repo/.", true));
    assert!(ready.detected && ready.issue.is_none() && ready.execution.is_some());
}

#[test]
fn detected_and_resolved_targets_run() {
    let roots = vec![
        (Language::Rust, String::from(".")),
        (Language::Rust, String::from("missing")),
    ];
    let planned = plan_configured_targets_for_languages(
        "/repo",
        &roots,
        vec![probe_of("/repo/.", true), probe_of("/repo/missing", false)],
    );
    let planning = analyze_planning(planned, checks());
    assert_eq!(planning.expected_targets, 2);
    assert_eq!(planning.detected_targets, 1);
    assert_eq!(planning.targets.len(), 1);
    assert_eq!(planning.targets[0].root, ".");
    assert_eq!(planning.targets[0].checks, checks());
    assert_eq!(planning.issues.len(), 1);
}

#[test]
fn requested_languages_must_be_enabled() {
    assert!(ensure_language_enabled(&vec![Language::Rust], Some(Language::Rust)).is_ok());
    assert!(ensure_language_enabled(&vec![Language::Rust], None).is_ok());
    assert_eq!(
        ensure_language_enabled(&vec![Language::Rust], Some(Language::Python)),
        Err(String::from("requested language python is not enabled in the configured policy"))
    );
}
