use ayni::operations::{
    authorize_capabilities, config_repo_root, container_config_path, launch_exit_code,
    managed_check_command, managed_impact_command, managed_quality_exit_code,
    managed_verify_command, outcome_exit_code, ApplicationError, ApplicationErrorKind,
    CapabilityAuthorization, CheckOperation, DockerAccess, EnvironmentCapabilities,
    ImpactOperation, NetworkAccess, RunOutcome, VerifyOperation,
};
use ayni::vocabulary::{ExecutionMode, Language, OutputFormat, SignalKind};

#[test]
fn managed_impact_forwards_explicit_change_identity_and_output() {
    let operation = ImpactOperation {
        config: String::from("./.ayni.toml"),
        base: String::from("feature/base"),
        output: OutputFormat::Json,
        execution_mode: ExecutionMode::Managed,
        debug: true,
        authorization: CapabilityAuthorization::default(),
        managed_handoff: None,
        managed_result: None,
    };

    assert_eq!(
        managed_impact_command(&operation, String::from("./.ayni.toml")),
        [
            "impact",
            "run",
            "--host",
            "--base",
            "feature/base",
            "--config",
            "./.ayni.toml",
            "--output",
            "json",
            "--debug",
        ]
        .map(String::from)
    );
}

#[test]
fn managed_verify_forwards_the_complete_focused_request() {
    let operation = VerifyOperation {
        signal: SignalKind::Test,
        config: String::from("./.ayni.toml"),
        language: Some(Language::Node),
        root: Some(String::from("apps/web")),
        file: Some(String::from("apps/web/src/cart.test.ts")),
        package: None,
        name: Some(String::from("updates cart")),
        output: OutputFormat::Markdown,
        execution_mode: ExecutionMode::Managed,
        debug: true,
        authorization: CapabilityAuthorization::default(),
    };

    assert_eq!(
        managed_verify_command(&operation, String::from("./.ayni.toml")),
        [
            "verify",
            "test",
            "--host",
            "--config",
            "./.ayni.toml",
            "--output",
            "markdown",
            "--language",
            "node",
            "--root",
            "apps/web",
            "--file",
            "apps/web/src/cart.test.ts",
            "--name",
            "updates cart",
            "--debug",
        ]
        .map(String::from)
    );
}

#[test]
fn managed_check_keeps_output_and_drops_debug_when_unset() {
    let operation = CheckOperation {
        config: String::from("./.ayni.toml"),
        output: OutputFormat::Human,
        execution_mode: ExecutionMode::Managed,
        debug: false,
        authorization: CapabilityAuthorization::default(),
    };
    assert_eq!(
        managed_check_command(&operation, String::from("./conf/.ayni.toml")),
        ["check", "--host", "--config", "./conf/.ayni.toml", "--output", "human"].map(String::from)
    );
}

#[test]
fn elevated_capabilities_require_independent_operator_authorization() {
    let requested = EnvironmentCapabilities {
        docker: DockerAccess::Socket,
        network: NetworkAccess::Bridge,
    };
    let network_error = authorize_capabilities(
        requested,
        CapabilityAuthorization {
            allow_network: false,
            allow_docker_socket: true,
        },
    )
    .expect_err("network must be authorized");
    assert_eq!(network_error.kind, ApplicationErrorKind::Environment);
    assert!(network_error.message.contains("--allow-network"));
    let docker_error = authorize_capabilities(
        requested,
        CapabilityAuthorization {
            allow_network: true,
            allow_docker_socket: false,
        },
    )
    .expect_err("docker socket must be authorized");
    assert!(docker_error.message.contains("--allow-docker-socket"));
    assert!(authorize_capabilities(
        requested,
        CapabilityAuthorization {
            allow_network: true,
            allow_docker_socket: true,
        },
    )
    .is_ok());
}

#[test]
fn error_kinds_map_to_exit_codes() {
    assert_eq!(ApplicationError::input(String::from("bad")).exit_code(), 2);
    assert_eq!(ApplicationError::environment(String::from("env")).exit_code(), 3);
    assert_eq!(ApplicationError::execution(String::from("exec")).exit_code(), 4);
    assert_eq!(outcome_exit_code(RunOutcome::Passed), 0);
    assert_eq!(outcome_exit_code(RunOutcome::QualityFailed), 1);
    assert_eq!(outcome_exit_code(RunOutcome::ExecutionIncomplete), 4);
}

#[test]
fn managed_exit_codes_outside_the_contract_become_execution_failures() {
    assert_eq!(managed_quality_exit_code(3), 3);
    assert_eq!(managed_quality_exit_code(7), 4);
    assert_eq!(managed_quality_exit_code(-1), 4);
    assert_eq!(launch_exit_code(0), 0);
    assert_eq!(launch_exit_code(200), 200);
    assert_eq!(launch_exit_code(300), 4);
}

#[test]
fn contract_paths_are_located_for_the_container() {
    assert_eq!(config_repo_root(".ayni.toml"), ".");
    assert_eq!(config_repo_root("repo/.ayni.toml"), "repo");
    assert_eq!(container_config_path("conf\\.ayni.toml"), "./conf/.ayni.toml");
}
