//! The Neutral Judge: screens patches for dangerous code and judges their trials.
use vstd::prelude::*;
use crate::error::HephaestusError;
use crate::sandbox::executor::{PermissionMode, SandboxConfig, SandboxError, SandboxResult};
use crate::text::{owned, chars_of, contains, contains_str, strs};

verus! {

/// The Neutral Judge actor evaluates patches and conducts trials.
pub struct NeutralJudge;

/// A patch that holds a dangerous pattern.
pub open spec fn dangerous(patch: Seq<char>) -> bool {
    ||| contains(patch, "unsafe"@)
    ||| contains(patch, "std::process::exit"@)
    ||| contains(patch, "fs::remove_dir_all"@)
    ||| contains(patch, "std::mem::forget"@)
}

/// The sandbox in which a trial runs: read-only, two seconds, in `cwd` (or
/// `/tmp` where the working directory is unknown), no network, a user
/// namespace, capabilities dropped.
pub open spec fn trial_config_spec(cwd: Option<Seq<char>>, c: SandboxConfig) -> bool {
    &&& c.permission_mode == PermissionMode::ReadOnly
    &&& c.timeout_ms == 2000
    &&& c.cwd@ == (match cwd {
        Some(d) => d,
        None => "/tmp"@,
    })
    &&& !c.enable_network
    &&& c.enable_user_namespace
    &&& c.drop_capabilities
    &&& !c.danger_mode
}

/// Whether a trial's run counts as a pass: it ran, was not interrupted and
/// succeeded.
pub open spec fn trial_passed(outcome: Result<SandboxResult, SandboxError>) -> bool {
    outcome matches Ok(res) && !res.interrupted && res.success
}

impl NeutralJudge {
    /// Inspects the patches: `Ok(true)` exactly when none is dangerous.
    pub fn inspect_safeguards(&self, patches: Vec<String>) -> (r: Result<bool, HephaestusError>)
        ensures
            r matches Ok(b) && b == (forall|i: int| 0 <= i < patches@.len() ==> !dangerous(#[trigger] patches@[i]@)),
    {
        let mut i: usize = 0;
        while i < patches.len()
            invariant
                i <= patches@.len(),
                forall|j: int| 0 <= j < i ==> !dangerous(#[trigger] patches@[j]@),
            decreases patches.len() - i,
        {
            let p = chars_of(patches[i].as_str());
            let ps = p.as_slice();
            if contains_str(ps, "unsafe") || contains_str(ps, "std::process::exit") || contains_str(
                ps,
                "fs::remove_dir_all",
            ) || contains_str(ps, "std::mem::forget") {
                assert(dangerous(patches@[i as int]@));
                return Ok(false);
            }
            i = i + 1;
        }
        Ok(true)
    }

    /// The sandbox configuration of the trials, for the working directory
    /// when it is known.
    pub fn trial_config(&self, cwd: Option<String>) -> (c: SandboxConfig)
        ensures
            trial_config_spec(
                match cwd {
                    Some(d) => Some(d@),
                    None => None,
                },
                c,
            ),
    {
        SandboxConfig {
            permission_mode: PermissionMode::ReadOnly,
            timeout_ms: 2000,
            cwd: match cwd {
                Some(d) => d,
                None => owned("/tmp"),
            },
            enable_network: false,
            enable_user_namespace: true,
            drop_capabilities: true,
            danger_mode: false,
        }
    }

    /// The verdicts of the trials: each patch with whether its run passed,
    /// the runs given in the order of the patches.
    pub fn judge_trials(&self, patches: Vec<String>, outcomes: &Vec<Result<SandboxResult, SandboxError>>) -> (r: Vec<(String, bool)>)
        requires
            patches@.len() == outcomes@.len(),
        ensures
            r@.len() == patches@.len(),
            forall|i: int|
                0 <= i < r@.len() ==> (#[trigger] r@[i]).0@ == patches@[i]@ && r@[i].1 == trial_passed(
                    outcomes@[i],
                ),
    {
        let mut r: Vec<(String, bool)> = Vec::new();
        let mut i: usize = 0;
        while i < patches.len()
            invariant
                patches@.len() == outcomes@.len(),
                i <= patches@.len(),
                r@.len() == i,
                forall|j: int|
                    0 <= j < i ==> (#[trigger] r@[j]).0@ == patches@[j]@ && r@[j].1 == trial_passed(
                        outcomes@[j],
                    ),
            decreases patches.len() - i,
        {
            let passed = match &outcomes[i] {
                Ok(res) => !res.interrupted && res.success,
                Err(_) => false,
            };
            r.push((patches[i].clone(), passed));
            i = i + 1;
        }
        r
    }
}

} // verus!
