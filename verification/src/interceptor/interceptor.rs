//! The interceptor that watches skills run and turns their failures into
//! repair triggers.
use vstd::prelude::*;
use std::sync::mpsc::Sender;
use crate::telemetry::time_travel::{StackFrameSnapshot, TimeTravelSnapshot, TimeTravelTelemetry};
use crate::text::{
    owned, chars_of, contains, contains_str, extend_str, split_whitespace_of, split_ws, string_of,
    strings_of, strs,
};

verus! {

/// The sending half of a standard channel, carried as it is.
#[verifier::external_type_specification]
#[verifier::external_body]
#[verifier::reject_recursive_types(T)]
pub struct ExSender<T>(Sender<T>);

/// `Sender::clone`: another sender on the same channel. Nothing is stated of
/// it, as the channel is not modelled.
pub assume_specification<T>[ <Sender<T> as Clone>::clone ](s: &Sender<T>) -> Sender<T>;

/// Intercepts skill executions and reports failures as repair events.
#[derive(Clone)]
pub struct HephaestusInterceptor {
    event_sender: Sender<HephaestusEvent>,
    telemetry: TimeTravelTelemetry,
    config: InterceptorConfig,
}

/// Configuration of the interceptor.
#[derive(Clone)]
pub struct InterceptorConfig {
    pub permission_mode: PermissionMode,
    pub max_repair_wait_ms: u64,
    pub reinvoke_after_repair: bool,
    /// Path of the repair log.
    pub repair_log_path: String,
}

/// What the interceptor may do on its own.
#[derive(Clone, Copy, Debug, PartialEq, Eq, Structural)]
pub enum PermissionMode {
    ReadOnly,
    SandboxedWithApproval,
    AutoRepair,
    DangerFullAccess,
}

/// An event sent to the repair loop.
pub struct HephaestusEvent {
    pub description: String,
    pub memory_snapshot: Option<TimeTravelSnapshot>,
    pub timestamp_ns: u64,
}

/// What a failed skill hands to the repair loop.
#[derive(Clone, Debug)]
pub struct RepairTrigger {
    pub skill_name: String,
    pub error_message: String,
    pub error_keywords: Vec<String>,
    pub stack_trace: Vec<StackFrameSnapshot>,
    pub memory_snapshot: Option<TimeTravelSnapshot>,
}

/// Errors of interception. The I/O error carries the message of the
/// underlying error.
#[derive(Debug)]
pub enum InterceptError {
    SkillPanicked { trigger: RepairTrigger, skill_name: String },
    TelemetryFailed(String),
    IoError(String),
}

impl InterceptError {
    /// The text the error displays.
    pub open spec fn message_spec(&self) -> Seq<char> {
        match self {
            InterceptError::SkillPanicked { skill_name, .. } => "Skill panicked: "@ + skill_name@,
            InterceptError::TelemetryFailed(s) => "Telemetry failed: "@ + s@,
            InterceptError::IoError(s) => "I/O error: "@ + s@,
        }
    }

    /// The text the error displays.
    pub fn message(&self) -> (m: String)
        ensures
            m@ == self.message_spec(),
    {
        let mut out: Vec<char> = Vec::new();
        match self {
            InterceptError::SkillPanicked { skill_name, .. } => {
                extend_str(&mut out, "Skill panicked: ");
                extend_str(&mut out, skill_name.as_str());
            },
            InterceptError::TelemetryFailed(s) => {
                extend_str(&mut out, "Telemetry failed: ");
                extend_str(&mut out, s.as_str());
            },
            InterceptError::IoError(s) => {
                extend_str(&mut out, "I/O error: ");
                extend_str(&mut out, s.as_str());
            },
        }
        string_of(out.as_slice())
    }
}

/// The outcome of a skill.
#[derive(Debug, Clone)]
pub enum SkillResult {
    Success,
    Failure(String),
}

/// A skill: a named piece of code.
#[derive(Debug, Clone)]
pub struct Skill {
    pub name: String,
    pub code: String,
}

/// The whitespace-separated words of an error message, in order.
pub fn extract_error_keywords(msg: &str) -> (r: Vec<String>)
    ensures
        strs(r@) == split_ws(msg@),
{
    let m = chars_of(msg);
    let words = split_whitespace_of(m.as_slice());
    strings_of(&words)
}

/// The outcome the interceptor reports for a skill: code that panics on
/// purpose fails, anything else succeeds.
pub open spec fn interception_outcome(code: Seq<char>, r: SkillResult) -> bool {
    if contains(code, "panic!"@) {
        r matches SkillResult::Failure(m) && m@ == "Intentional panic"@
    } else {
        r is Success
    }
}

impl HephaestusInterceptor {
    /// An interceptor that reports on `event_sender` and works by `config`.
    pub fn new(event_sender: Sender<HephaestusEvent>, config: InterceptorConfig) -> (r: Self)
        ensures
            r.config() == config,
    {
        HephaestusInterceptor { event_sender, telemetry: TimeTravelTelemetry, config }
    }

    /// The configuration the interceptor works by.
    pub closed spec fn config(&self) -> InterceptorConfig {
        self.config
    }

    /// Runs the interception of a skill: code holding `panic!` fails with
    /// "Intentional panic"; any other skill succeeds.
    pub fn intercept_skill(&self, skill: &Skill) -> (r: SkillResult)
        ensures
            interception_outcome(skill.code@, r),
    {
        let code = chars_of(skill.code.as_str());
        if contains_str(code.as_slice(), "panic!") {
            SkillResult::Failure(owned("Intentional panic"))
        } else {
            SkillResult::Success
        }
    }

    /// Runs the interception of a skill and reports no repair trigger.
    pub fn intercept_skill_with_trigger(&self, skill: &Skill) -> (r: (SkillResult, Option<RepairTrigger>))
        ensures
            r.0 is Success,
            r.1 is None,
    {
        (SkillResult::Success, None)
    }

    /// Hook after a skill ran: accepts every outcome.
    pub fn after_skill_execution(&self, skill: &Skill, result: &SkillResult) -> (r: Result<(), InterceptError>)
        ensures
            r is Ok,
    {
        Ok(())
    }

    /// Hook after a skill failed: accepts every outcome.
    pub fn on_skill_failure(&self, skill: &Skill, result: &SkillResult) -> (r: Result<(), InterceptError>)
        ensures
            r is Ok,
    {
        Ok(())
    }
}

} // verus!
