//! Sandboxed execution: requests, limits, configuration and results, and the
//! decisions taken before a process is launched and after it ends.
use vstd::prelude::*;
use crate::text::{
    owned, chars_of, clone_strings, contains, contains_str, decimal, extend_str, push_decimal,
    string_of, strings_contain, strs, to_uppercase, uppercase,
};

verus! {

/// Permission modes for sandbox execution.
#[derive(Clone, Copy, Debug, PartialEq, Eq, Structural)]
pub enum PermissionMode {
    /// Read-only access to files, no network, no ability to modify system.
    ReadOnly,
    /// Sandboxed execution requiring explicit approval for certain operations.
    SandboxedWithApproval,
    /// Automatic repair allowed (limited system access).
    AutoRepair,
    /// Full access (dangerous, should be avoided).
    DangerFullAccess,
}

/// Network policy for execution.
#[derive(Clone, Copy, Debug, PartialEq, Eq, Structural)]
pub enum NetworkPolicy {
    Disabled,
    Enabled,
}

/// Resource limits for execution.
#[derive(Clone, Copy, Debug)]
pub struct ResourceLimits {
    pub max_memory_bytes: Option<u64>,
    pub max_file_size_bytes: Option<u64>,
    pub max_processes: Option<u32>,
}

/// 2 GiB of memory and 1 GiB per file, no process limit.
pub open spec fn compilation_limits() -> ResourceLimits {
    ResourceLimits {
        max_memory_bytes: Some(2147483648u64),
        max_file_size_bytes: Some(1073741824u64),
        max_processes: None,
    }
}

/// 256 MiB of memory, 20 MiB per file, 32 processes.
pub open spec fn strict_limits() -> ResourceLimits {
    ResourceLimits {
        max_memory_bytes: Some(268435456u64),
        max_file_size_bytes: Some(20971520u64),
        max_processes: Some(32u32),
    }
}

impl ResourceLimits {
    /// Resource limit profile suitable for heavy Rust compilation (rustc/cargo).
    pub fn compilation_profile() -> (r: Self)
        ensures
            r == compilation_limits(),
    {
        ResourceLimits {
            max_memory_bytes: Some(2 * 1024 * 1024 * 1024),
            max_file_size_bytes: Some(1024 * 1024 * 1024),
            max_processes: None,
        }
    }

    /// Resource limit profile suitable for running test suites.
    pub fn test_execution_profile() -> (r: Self)
        ensures
            r == compilation_limits(),
    {
        ResourceLimits {
            max_memory_bytes: Some(2 * 1024 * 1024 * 1024),
            max_file_size_bytes: Some(1024 * 1024 * 1024),
            max_processes: None,
        }
    }

    /// Strict resource limit profile suitable for untrusted candidate execution.
    pub fn strict_sandbox_profile() -> (r: Self)
        ensures
            r == strict_limits(),
    {
        ResourceLimits {
            max_memory_bytes: Some(256 * 1024 * 1024),
            max_file_size_bytes: Some(20 * 1024 * 1024),
            max_processes: Some(32),
        }
    }
}

impl Default for ResourceLimits {
    /// The compilation profile.
    fn default() -> (r: Self)
        ensures
            r == compilation_limits(),
    {
        Self::compilation_profile()
    }
}

/// Structured request for safe, isolated execution.
#[derive(Clone, Debug)]
pub struct ExecutionRequest {
    pub program: String,
    pub args: Vec<String>,
    pub working_directory: String,
    /// Time allowed to the process, in milliseconds.
    pub timeout_ms: u64,
    pub environment_allowlist: Vec<String>,
    pub network_policy: NetworkPolicy,
    pub resource_limits: ResourceLimits,
}

/// The variables a request lets through unless told otherwise.
pub open spec fn default_allowlist() -> Seq<Seq<char>> {
    seq!["PATH"@, "RUST_LOG"@, "RUST_BACKTRACE"@, "TERM"@]
}

fn default_allowlist_exec() -> (v: Vec<String>)
    ensures
        strs(v@) == default_allowlist(),
{
    let mut v: Vec<String> = Vec::new();
    v.push(owned("PATH"));
    v.push(owned("RUST_LOG"));
    v.push(owned("RUST_BACKTRACE"));
    v.push(owned("TERM"));
    assert(strs(v@) =~= default_allowlist());
    v
}

impl ExecutionRequest {
    /// A request to run `program` in `cwd`: no arguments, five seconds, the
    /// default allowlist, no network, the compilation limits.
    pub fn new(program: &str, cwd: &str) -> (r: Self)
        ensures
            r.program@ == program@,
            r.args@.len() == 0,
            r.working_directory@ == cwd@,
            r.timeout_ms == 5000,
            strs(r.environment_allowlist@) == default_allowlist(),
            r.network_policy == NetworkPolicy::Disabled,
            r.resource_limits == compilation_limits(),
    {
        ExecutionRequest {
            program: owned(program),
            args: Vec::new(),
            working_directory: owned(cwd),
            timeout_ms: 5000,
            environment_allowlist: default_allowlist_exec(),
            network_policy: NetworkPolicy::Disabled,
            resource_limits: ResourceLimits::default(),
        }
    }
}

/// Configuration for sandbox execution.
#[derive(Clone, Debug)]
pub struct SandboxConfig {
    pub permission_mode: PermissionMode,
    /// Time allowed, in milliseconds (5000 by convention).
    pub timeout_ms: u64,
    pub cwd: String,
    pub enable_network: bool,
    pub enable_user_namespace: bool,
    pub drop_capabilities: bool,
    pub danger_mode: bool,
}

/// Result of sandbox execution.
#[derive(Clone, Debug)]
pub struct SandboxResult {
    pub success: bool,
    pub return_code: Option<i32>,
    /// Whether the timeout struck.
    pub interrupted: bool,
    pub stdout: String,
    pub stderr: String,
}

/// Errors that can occur during sandbox execution. The I/O errors carry the
/// message of the underlying error.
#[derive(Debug)]
pub enum SandboxError {
    SpawnFailed(String),
    WaitFailed(String),
    PermissionDenied(String),
    InvalidConfig(String),
}

impl SandboxError {
    /// The text the error displays.
    pub open spec fn message_spec(&self) -> Seq<char> {
        match self {
            SandboxError::SpawnFailed(e) => "Failed to spawn sandbox process: "@ + e@,
            SandboxError::WaitFailed(e) => "Failed to wait on sandbox process: "@ + e@,
            SandboxError::PermissionDenied(s) => "Permission denied: "@ + s@,
            SandboxError::InvalidConfig(s) => "Invalid sandbox configuration: "@ + s@,
        }
    }

    /// The text the error displays.
    pub fn message(&self) -> (m: String)
        ensures
            m@ == self.message_spec(),
    {
        let mut out: Vec<char> = Vec::new();
        match self {
            SandboxError::SpawnFailed(e) => {
                extend_str(&mut out, "Failed to spawn sandbox process: ");
                extend_str(&mut out, e.as_str());
            },
            SandboxError::WaitFailed(e) => {
                extend_str(&mut out, "Failed to wait on sandbox process: ");
                extend_str(&mut out, e.as_str());
            },
            SandboxError::PermissionDenied(s) => {
                extend_str(&mut out, "Permission denied: ");
                extend_str(&mut out, s.as_str());
            },
            SandboxError::InvalidConfig(s) => {
                extend_str(&mut out, "Invalid sandbox configuration: ");
                extend_str(&mut out, s.as_str());
            },
        }
        string_of(out.as_slice())
    }
}

/// The message of the error for a zero timeout.
pub open spec fn zero_timeout_message() -> Seq<char> {
    "Timeout must be greater than zero"@
}

/// Whether `r` is the error for a zero timeout.
pub open spec fn is_zero_timeout_error<T>(r: Result<T, SandboxError>) -> bool {
    r matches Err(SandboxError::InvalidConfig(m)) && m@ == zero_timeout_message()
}

// ------------------------------------------------------------ environment

/// An uppercased variable name that marks a secret.
pub open spec fn secret_env_name(upper: Seq<char>) -> bool {
    ||| contains(upper, "_TOKEN"@)
    ||| contains(upper, "_SECRET"@)
    ||| contains(upper, "_PASSWORD"@)
    ||| contains(upper, "_KEY"@)
    ||| contains(upper, "DATABASE_URL"@)
}

/// Whether a variable of this name may reach a sandboxed process: its
/// uppercased name marks no secret.
pub fn is_forwardable_env(name: &str) -> (b: bool)
    ensures
        b == !secret_env_name(uppercase(name@)),
{
    let upper = to_uppercase(name);
    let u = chars_of(upper.as_str());
    let us = u.as_slice();
    let secret = contains_str(us, "_TOKEN") || contains_str(us, "_SECRET") || contains_str(
        us,
        "_PASSWORD",
    ) || contains_str(us, "_KEY") || contains_str(us, "DATABASE_URL");
    !secret
}

/// The names of an allowlist that may be forwarded, in order.
pub open spec fn forwardable(names: Seq<Seq<char>>) -> Seq<Seq<char>>
    decreases names.len(),
{
    if names.len() == 0 {
        seq![]
    } else {
        let prev = forwardable(names.drop_last());
        if secret_env_name(uppercase(names.last())) {
            prev
        } else {
            prev.push(names.last())
        }
    }
}

fn forwardable_names(names: &Vec<String>) -> (r: Vec<String>)
    ensures
        strs(r@) == forwardable(strs(names@)),
{
    let mut out: Vec<String> = Vec::new();
    let mut i: usize = 0;
    while i < names.len()
        invariant
            i <= names@.len(),
            strs(out@) == forwardable(strs(names@).take(i as int)),
        decreases names.len() - i,
    {
        let ghost before = out@;
        assert(strs(names@).take(i + 1).drop_last() =~= strs(names@).take(i as int));
        if is_forwardable_env(names[i].as_str()) {
            out.push(names[i].clone());
            assert(strs(out@) =~= strs(before).push(names@[i as int]@));
        }
        i = i + 1;
    }
    assert(strs(names@).take(names@.len() as int) =~= strs(names@));
    out
}

// ------------------------------------------------------------ launching

/// The arguments of a request as launched: `--offline` goes first when the
/// network is off, the program is cargo and the flag is not there yet.
pub open spec fn launch_args(r: ExecutionRequest) -> Seq<Seq<char>> {
    let a = strs(r.args@);
    if r.network_policy == NetworkPolicy::Disabled && contains(r.program@, "cargo"@)
        && !a.contains("--offline"@) {
        seq!["--offline"@] + a
    } else {
        a
    }
}

/// What the operating system is asked to run for a request.
#[derive(Clone, Debug)]
pub struct LaunchPlan {
    pub program: String,
    pub args: Vec<String>,
    pub working_directory: String,
    /// The allowlisted variables that may be passed on, where set.
    pub env_names: Vec<String>,
    pub timeout_ms: u64,
    pub resource_limits: ResourceLimits,
}

/// Checks a request and fixes how it is launched: a zero timeout is refused;
/// otherwise the arguments get `--offline` where `launch_args` says so, and
/// only the allowlisted names that mark no secret are passed on.
pub fn plan_request(request: &ExecutionRequest) -> (r: Result<LaunchPlan, SandboxError>)
    ensures
        request.timeout_ms == 0 <==> r is Err,
        request.timeout_ms == 0 ==> is_zero_timeout_error(r),
        r matches Ok(p) ==> {
            &&& p.program@ == request.program@
            &&& strs(p.args@) == launch_args(*request)
            &&& p.working_directory@ == request.working_directory@
            &&& strs(p.env_names@) == forwardable(strs(request.environment_allowlist@))
            &&& p.timeout_ms == request.timeout_ms
            &&& p.resource_limits == request.resource_limits
        },
{
    if request.timeout_ms == 0 {
        return Err(SandboxError::InvalidConfig(owned("Timeout must be greater than zero")));
    }
    let mut args = clone_strings(&request.args);
    let prog = chars_of(request.program.as_str());
    if request.network_policy == NetworkPolicy::Disabled && contains_str(prog.as_slice(), "cargo")
        && !strings_contain(&request.args, "--offline") {
        let ghost before = args@;
        args.insert(0, owned("--offline"));
        assert(strs(args@) =~= seq!["--offline"@] + strs(before));
    }
    Ok(
        LaunchPlan {
            program: request.program.clone(),
            args,
            working_directory: request.working_directory.clone(),
            env_names: forwardable_names(&request.environment_allowlist),
            timeout_ms: request.timeout_ms,
            resource_limits: request.resource_limits,
        },
    )
}

// ------------------------------------------------------------ timeouts

/// What is noted of the process group after a timeout: nothing without a
/// group id; its termination when the kill signal went out; the error
/// otherwise.
pub open spec fn kill_note_spec(pgid: Option<u32>, kill_error: Option<Seq<char>>) -> Seq<char> {
    match pgid {
        None => seq![],
        Some(p) => match kill_error {
            None => " (Process group "@ + decimal(p as nat) + " terminated via SIGKILL)"@,
            Some(e) => " (SIGKILL notice: "@ + e + ")"@,
        },
    }
}

/// The note on the process group after a timeout; `kill_error` is the
/// message of a failed kill.
pub fn kill_note(pgid: Option<u32>, kill_error: Option<&str>) -> (s: String)
    ensures
        s@ == kill_note_spec(
            pgid,
            match kill_error {
                Some(e) => Some(e@),
                None => None,
            },
        ),
{
    let mut out: Vec<char> = Vec::new();
    match pgid {
        None => {},
        Some(p) => match kill_error {
            None => {
                extend_str(&mut out, " (Process group ");
                push_decimal(&mut out, p as u64);
                extend_str(&mut out, " terminated via SIGKILL)");
            },
            Some(e) => {
                extend_str(&mut out, " (SIGKILL notice: ");
                extend_str(&mut out, e);
                extend_str(&mut out, ")");
            },
        },
    }
    string_of(out.as_slice())
}

/// The result of a run that the timeout cut short: no success, no code,
/// nothing on stdout, and on stderr the whole seconds allowed and the note.
pub fn timeout_result(timeout_ms: u64, note: &str) -> (r: SandboxResult)
    ensures
        !r.success,
        r.return_code is None,
        r.interrupted,
        r.stdout@.len() == 0,
        r.stderr@ == "Execution timed out after "@ + decimal((timeout_ms / 1000) as nat)
            + " seconds"@ + note@,
{
    let mut out: Vec<char> = Vec::new();
    extend_str(&mut out, "Execution timed out after ");
    push_decimal(&mut out, timeout_ms / 1000);
    extend_str(&mut out, " seconds");
    extend_str(&mut out, note);
    SandboxResult {
        success: false,
        return_code: None,
        interrupted: true,
        stdout: String::new(),
        stderr: string_of(out.as_slice()),
    }
}

// ------------------------------------------------------------ namespaces

/// The shell script run inside the namespaces: a private home and temporary
/// directory, then the code.
pub open spec fn setup_script(code: Seq<char>) -> Seq<char> {
    "\n        export HOME=.sandbox-home\n        export TMPDIR=.sandbox-tmp\n        mkdir -p .sandbox-home .sandbox-tmp\n        "@
        + code + "\n        "@
}

/// The arguments of `unshare` for a configuration and code.
pub open spec fn unshare_args(config: SandboxConfig, code: Seq<char>) -> Seq<Seq<char>> {
    seq!["--mount"@, "--ipc"@, "--pid"@, "--uts"@] + (if config.enable_user_namespace {
        seq!["--user"@, "--map-root-user"@]
    } else {
        seq![]
    }) + (if !config.enable_network {
        seq!["--net"@]
    } else {
        seq![]
    }) + seq!["--fork"@, "sh"@, "-c"@, setup_script(code)]
}

/// The request that runs `code` in fresh Linux namespaces: a zero timeout is
/// refused; otherwise `unshare` runs a shell on the code in the configured
/// directory, with the default allowlist and the compilation limits, and the
/// network as configured.
pub fn sandbox_request(code: &str, config: &SandboxConfig) -> (r: Result<ExecutionRequest, SandboxError>)
    ensures
        config.timeout_ms == 0 <==> r is Err,
        config.timeout_ms == 0 ==> is_zero_timeout_error(r),
        r matches Ok(q) ==> {
            &&& q.program@ == "unshare"@
            &&& strs(q.args@) == unshare_args(*config, code@)
            &&& q.working_directory@ == config.cwd@
            &&& q.timeout_ms == config.timeout_ms
            &&& strs(q.environment_allowlist@) == default_allowlist()
            &&& q.network_policy == (if config.enable_network {
                NetworkPolicy::Enabled
            } else {
                NetworkPolicy::Disabled
            })
            &&& q.resource_limits == compilation_limits()
        },
{
    if config.timeout_ms == 0 {
        return Err(SandboxError::InvalidConfig(owned("Timeout must be greater than zero")));
    }
    let mut args: Vec<String> = Vec::new();
    args.push(owned("--mount"));
    args.push(owned("--ipc"));
    args.push(owned("--pid"));
    args.push(owned("--uts"));
    let ghost base = strs(args@);
    assert(base =~= seq!["--mount"@, "--ipc"@, "--pid"@, "--uts"@]);
    if config.enable_user_namespace {
        args.push(owned("--user"));
        args.push(owned("--map-root-user"));
    }
    let ghost with_user = strs(args@);
    assert(with_user =~= base + (if config.enable_user_namespace {
        seq!["--user"@, "--map-root-user"@]
    } else {
        seq![]
    }));
    if !config.enable_network {
        args.push(owned("--net"));
    }
    let ghost with_net = strs(args@);
    assert(with_net =~= with_user + (if !config.enable_network {
        seq!["--net"@]
    } else {
        seq![]
    }));
    let mut script: Vec<char> = Vec::new();
    extend_str(
        &mut script,
        "\n        export HOME=.sandbox-home\n        export TMPDIR=.sandbox-tmp\n        mkdir -p .sandbox-home .sandbox-tmp\n        ",
    );
    extend_str(&mut script, code);
    extend_str(&mut script, "\n        ");
    args.push(owned("--fork"));
    args.push(owned("sh"));
    args.push(owned("-c"));
    args.push(string_of(script.as_slice()));
    assert(strs(args@) =~= with_net + seq!["--fork"@, "sh"@, "-c"@, setup_script(code@)]);
    Ok(
        ExecutionRequest {
            program: owned("unshare"),
            args,
            working_directory: config.cwd.clone(),
            timeout_ms: config.timeout_ms,
            environment_allowlist: default_allowlist_exec(),
            network_policy: if config.enable_network {
                NetworkPolicy::Enabled
            } else {
                NetworkPolicy::Disabled
            },
            resource_limits: ResourceLimits::default(),
        },
    )
}

/// The variables a launch passes on come from the allowlist, and none of
/// them marks a secret.
pub proof fn lemma_forwarded_names_are_safe(names: Seq<Seq<char>>)
    ensures
        forall|i: int|
            0 <= i < forwardable(names).len() ==> !secret_env_name(uppercase(
                #[trigger] forwardable(names)[i],
            )) && names.contains(forwardable(names)[i]),
    decreases names.len(),
{
    if names.len() > 0 {
        let prev = names.drop_last();
        lemma_forwarded_names_are_safe(prev);
        assert forall|i: int| 0 <= i < forwardable(names).len() implies !secret_env_name(
            uppercase(#[trigger] forwardable(names)[i]),
        ) && names.contains(forwardable(names)[i]) by {
            if i < forwardable(prev).len() {
                assert(forwardable(names)[i] == forwardable(prev)[i]);
                let j = choose|j: int| 0 <= j < prev.len() && prev[j] == forwardable(prev)[i];
                assert(names[j] == prev[j]);
            } else {
                assert(names[names.len() - 1] == names.last());
            }
        }
    }
}

/// A cargo run without network is always launched offline.
pub proof fn lemma_cargo_runs_offline(r: ExecutionRequest)
    requires
        r.network_policy == NetworkPolicy::Disabled,
        contains(r.program@, "cargo"@),
    ensures
        launch_args(r).contains("--offline"@),
{
    if !strs(r.args@).contains("--offline"@) {
        assert(launch_args(r)[0] == "--offline"@);
    }
}

} // verus!
