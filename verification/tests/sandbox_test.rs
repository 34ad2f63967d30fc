use hephaestus::sandbox::executor::{
    is_forwardable_env, kill_note, plan_request, sandbox_request, timeout_result, ExecutionRequest,
    NetworkPolicy, PermissionMode, ResourceLimits, SandboxConfig, SandboxError, SandboxResult,
};

fn strings(v: &[&str]) -> Vec<String> {
    v.iter().map(|s| s.to_string()).collect()
}

fn config(timeout_ms: u64, network: bool, user_ns: bool) -> SandboxConfig {
    SandboxConfig {
        permission_mode: PermissionMode::ReadOnly,
        timeout_ms,
        cwd: "/work".to_string(),
        enable_network: network,
        enable_user_namespace: user_ns,
        drop_capabilities: true,
        danger_mode: false,
    }
}

#[test]
fn test_sandbox_config_defaults() {
    let config = SandboxConfig {
        permission_mode: PermissionMode::ReadOnly,
        timeout_ms: 5000,
        cwd: ".".to_string(),
        enable_network: false,
        enable_user_namespace: true,
        drop_capabilities: true,
        danger_mode: false,
    };

    assert_eq!(config.permission_mode, PermissionMode::ReadOnly);
    assert_eq!(config.timeout_ms, 5000);
    assert!(!config.enable_network);
    assert!(config.enable_user_namespace);
    assert!(config.drop_capabilities);
    assert!(!config.danger_mode);
}

#[test]
fn test_sandbox_result_creation() {
    let result = SandboxResult {
        success: true,
        return_code: Some(0),
        interrupted: false,
        stdout: "test output".to_string(),
        stderr: "".to_string(),
    };

    assert!(result.success);
    assert_eq!(result.return_code, Some(0));
    assert!(!result.interrupted);
    assert_eq!(result.stdout, "test output");
    assert_eq!(result.stderr, "");
}

#[test]
fn resource_profiles_have_their_limits() {
    let c = ResourceLimits::compilation_profile();
    assert_eq!(c.max_memory_bytes, Some(2 * 1024 * 1024 * 1024));
    assert_eq!(c.max_file_size_bytes, Some(1024 * 1024 * 1024));
    assert_eq!(c.max_processes, None);
    let t = ResourceLimits::test_execution_profile();
    assert_eq!(t.max_memory_bytes, c.max_memory_bytes);
    assert_eq!(t.max_file_size_bytes, c.max_file_size_bytes);
    assert_eq!(t.max_processes, None);
    let s = ResourceLimits::strict_sandbox_profile();
    assert_eq!(s.max_memory_bytes, Some(256 * 1024 * 1024));
    assert_eq!(s.max_file_size_bytes, Some(20 * 1024 * 1024));
    assert_eq!(s.max_processes, Some(32));
    let d = ResourceLimits::default();
    assert_eq!(d.max_memory_bytes, c.max_memory_bytes);
    assert_eq!(d.max_processes, None);
}

#[test]
fn execution_request_defaults() {
    let r = ExecutionRequest::new("sleep", "/tmp");
    assert_eq!(r.program, "sleep");
    assert_eq!(r.working_directory, "/tmp");
    assert!(r.args.is_empty());
    assert_eq!(r.timeout_ms, 5000);
    assert_eq!(r.environment_allowlist, strings(&["PATH", "RUST_LOG", "RUST_BACKTRACE", "TERM"]));
    assert_eq!(r.network_policy, NetworkPolicy::Disabled);
    assert_eq!(r.resource_limits.max_memory_bytes, Some(2147483648));
}

#[test]
fn zero_timeout_is_refused() {
    let mut r = ExecutionRequest::new("sleep", "/tmp");
    r.timeout_ms = 0;
    match plan_request(&r) {
        Err(SandboxError::InvalidConfig(m)) => assert_eq!(m, "Timeout must be greater than zero"),
        other => panic!("unexpected {:?}", other.is_ok()),
    }
    match sandbox_request("true", &config(0, false, true)) {
        Err(e) => assert_eq!(
            e.message(),
            "Invalid sandbox configuration: Timeout must be greater than zero"
        ),
        Ok(_) => panic!("zero timeout accepted"),
    }
}

#[test]
fn cargo_without_network_runs_offline() {
    let mut r = ExecutionRequest::new("/usr/bin/cargo", "/proj");
    r.args = strings(&["test"]);
    let plan = plan_request(&r).unwrap();
    assert_eq!(plan.args, strings(&["--offline", "test"]));
    assert_eq!(plan.program, "/usr/bin/cargo");
    assert_eq!(plan.timeout_ms, 5000);

    r.args = strings(&["test", "--offline"]);
    assert_eq!(plan_request(&r).unwrap().args, strings(&["test", "--offline"]));

    r.args = strings(&["test"]);
    r.network_policy = NetworkPolicy::Enabled;
    assert_eq!(plan_request(&r).unwrap().args, strings(&["test"]));

    let mut other = ExecutionRequest::new("sh", "/proj");
    other.args = strings(&["-c", "ls"]);
    assert_eq!(plan_request(&other).unwrap().args, strings(&["-c", "ls"]));
}

#[test]
fn secret_variables_are_not_forwarded() {
    assert!(is_forwardable_env("PATH"));
    assert!(is_forwardable_env("HEPHAESTUS_TEST_ALLOWED"));
    assert!(!is_forwardable_env("HEPHAESTUS_TEST_FORBIDDEN_TOKEN"));
    assert!(!is_forwardable_env("github_token"));
    assert!(!is_forwardable_env("AWS_SECRET_ACCESS"));
    assert!(!is_forwardable_env("DB_PASSWORD"));
    assert!(!is_forwardable_env("API_KEY"));
    assert!(!is_forwardable_env("DATABASE_URL"));

    let mut r = ExecutionRequest::new("env", "/tmp");
    r.environment_allowlist = strings(&["HEPHAESTUS_TEST_ALLOWED", "MY_TOKEN", "TERM"]);
    let plan = plan_request(&r).unwrap();
    assert_eq!(plan.env_names, strings(&["HEPHAESTUS_TEST_ALLOWED", "TERM"]));
}

#[test]
fn namespace_arguments_follow_the_configuration() {
    let q = sandbox_request("echo hi", &config(2000, false, true)).unwrap();
    assert_eq!(q.program, "unshare");
    assert_eq!(q.working_directory, "/work");
    assert_eq!(q.timeout_ms, 2000);
    assert_eq!(q.network_policy, NetworkPolicy::Disabled);
    let script = "\n        export HOME=.sandbox-home\n        export TMPDIR=.sandbox-tmp\n        mkdir -p .sandbox-home .sandbox-tmp\n        echo hi\n        ";
    assert_eq!(
        q.args,
        strings(&[
            "--mount", "--ipc", "--pid", "--uts", "--user", "--map-root-user", "--net", "--fork",
            "sh", "-c", script,
        ])
    );

    let open = sandbox_request("ls", &config(10, true, false)).unwrap();
    assert_eq!(open.network_policy, NetworkPolicy::Enabled);
    assert_eq!(open.args[..6].to_vec(), strings(&["--mount", "--ipc", "--pid", "--uts", "--fork", "sh"]));
}

#[test]
fn timeouts_report_the_seconds_and_the_kill() {
    assert_eq!(kill_note(None, None), "");
    assert_eq!(kill_note(Some(4242), None), " (Process group 4242 terminated via SIGKILL)");
    assert_eq!(kill_note(Some(7), Some("No such process")), " (SIGKILL notice: No such process)");

    let r = timeout_result(2500, " (Process group 9 terminated via SIGKILL)");
    assert!(!r.success);
    assert!(r.interrupted);
    assert_eq!(r.return_code, None);
    assert_eq!(r.stdout, "");
    assert_eq!(
        r.stderr,
        "Execution timed out after 2 seconds (Process group 9 terminated via SIGKILL)"
    );
    assert_eq!(timeout_result(100, "").stderr, "Execution timed out after 0 seconds");
}

#[test]
fn sandbox_error_messages() {
    assert_eq!(
        SandboxError::SpawnFailed("no such file".to_string()).message(),
        "Failed to spawn sandbox process: no such file"
    );
    assert_eq!(
        SandboxError::WaitFailed("interrupted".to_string()).message(),
        "Failed to wait on sandbox process: interrupted"
    );
    assert_eq!(
        SandboxError::PermissionDenied("net".to_string()).message(),
        "Permission denied: net"
    );
}
