use ayni::contract::{
    quoted, render_human, render_quoted_list, render_signal_detail, ContractProjection,
    EnvironmentProjection, EnvironmentToolProjection, ForbiddenDependencyProjection,
    LanguageProjection, PolicyWarning, ResourceLimitsText, SignalDetail, SignalProjection,
    SizeRuleProjection, ThresholdText, ToolOverrideProjection, CONTRACT_PROJECTION_VERSION,
};
use ayni::vocabulary::{Language, SignalKind};

fn environment(tools: Vec<EnvironmentToolProjection>) -> EnvironmentProjection {
    EnvironmentProjection {
        tools,
        debian_packages: Vec::new(),
        docker: String::from("None"),
        network: String::from("None"),
        resources: ResourceLimitsText {
            cpus: String::from("2"),
            memory_mib: String::from("4096"),
            memory_swap_mib: String::from("4096"),
            pids: String::from("512"),
            nofile: String::from("1024"),
        },
    }
}

fn detail_text(detail: SignalDetail) -> String {
    let mut lines = Vec::new();
    render_signal_detail(&mut lines, &detail);
    lines.join("\n")
}

#[test]
fn strings_are_quoted_as_debug_text() {
    assert_eq!(quoted("plain"), "\"plain\"");
    assert_eq!(quoted("a\"b"), "\"a\\\"b\"");
    assert_eq!(render_quoted_list(&vec![String::from("x"), String::from("y")]), "[\"x\", \"y\"]");
    assert_eq!(render_quoted_list(&Vec::new()), "[]");
}

#[test]
fn unconfigured_details_say_so() {
    assert_eq!(detail_text(SignalDetail::Tool { tool_override: None }), "      tool override: not configured");
    assert_eq!(detail_text(SignalDetail::Size { rules: Vec::new() }), "      rules: not configured");
    assert_eq!(detail_text(SignalDetail::Deps { forbidden: Vec::new() }), "      restrictions: not configured");
    assert_eq!(
        detail_text(SignalDetail::Complexity { fn_cyclomatic: None, fn_cognitive: None }),
        "      thresholds:\n        fn_cyclomatic (maximum): not configured\n        fn_cognitive (maximum): not configured"
    );
}

#[test]
fn configured_details_list_every_rule() {
    assert_eq!(
        detail_text(SignalDetail::Coverage {
            line_percent: Some(ThresholdText { warn: String::from("80"), fail: String::from("70") }),
            branch_percent: None,
            coverage_satisfies_test: true,
            tool_override: Some(ToolOverrideProjection { command: String::from("cargo"), args: vec![String::from("llvm-cov")] }),
        }),
        "      thresholds:\n        line_percent (minimum): warn 80 | fail 70\n        branch_percent (minimum): not configured\n      coverage satisfies test: yes\n      tool override: command \"cargo\" | args [\"llvm-cov\"]"
    );
    assert_eq!(
        detail_text(SignalDetail::Size {
            rules: vec![SizeRuleProjection { pattern: String::from("*.rs"), warn: 400, fail: 600, exclude: Vec::new() }],
        }),
        "      rules:\n        - pattern: \"*.rs\" | warn: 400 | fail: 600\n          exclusions: none"
    );
    assert_eq!(
        detail_text(SignalDetail::Deps {
            forbidden: vec![
                ForbiddenDependencyProjection { from: String::from("core"), targets: vec![String::from("cli"), String::from("adapters/*")] },
                ForbiddenDependencyProjection { from: String::from("x"), targets: Vec::new() },
            ],
        }),
        "      restrictions:\n        - \"core\" -> \"cli\"\n        - \"core\" -> \"adapters/*\"\n        - \"x\" -> none"
    );
}

#[test]
fn human_contract_lists_environment_languages_and_warnings() {
    let projection = ContractProjection {
        projection_version: String::from(CONTRACT_PROJECTION_VERSION),
        environment: environment(vec![EnvironmentToolProjection { tool: String::from("protoc"), version: String::from("29.3") }]),
        languages: vec![LanguageProjection {
            language: Language::Rust,
            roots: vec![String::from(".")],
            signals: vec![SignalProjection { kind: SignalKind::Test, enabled: true, detail: SignalDetail::Tool { tool_override: None } }],
        }],
        warnings: vec![PolicyWarning {
            code: String::from("W1"),
            policy_path: String::from("rust.complexity"),
            message: String::from("not effective"),
        }],
    };
    let rendered = render_human(&projection);
    assert_eq!(
        rendered,
        "Configured signal contract (projection version 0.4.0)\n\nenvironment:\n  docker: None | network: None\n  resources: cpus=2 memory=4096MiB memory+swap=4096MiB pids=512 nofile=1024\n  tools:\n    - protoc@29.3\n  Debian packages:\n    none\n\nlanguage: rust\n  roots:\n    - .\n  signals:\n    test: enabled\n      tool override: not configured\n\nwarnings:\n  - [W1] rust.complexity: not effective\n"
    );
}

#[test]
fn empty_contract_says_none() {
    let projection = ContractProjection {
        projection_version: String::from("0.4.0"),
        environment: environment(Vec::new()),
        languages: Vec::new(),
        warnings: Vec::new(),
    };
    let rendered = render_human(&projection);
    assert!(rendered.contains("  tools:\n    none\n"));
    assert!(rendered.ends_with("\nwarnings:\n  none\n"));
}
