//! Patch generation by a language model, with the heuristic candidate as
//! the fallback.
use vstd::prelude::*;
use crate::error::HephaestusError;
use crate::orchestration::project_repair::{
    generate_unified_diff_pub, patchable, patched_content, unified_diff, FailureReport,
    PatchCandidate, ProjectRepairEngine,
};
use crate::text::{owned, extend_str, string_of};

verus! {

/// The answer expected from the model.
#[derive(Debug, Clone)]
pub struct LlmPatchResponse {
    pub hypothesis: String,
    pub patch: String,
    pub files_changed: Vec<String>,
    pub risk: String,
}

/// A patch generator backed by a model on OpenRouter.
pub struct LlmPatchGenerator {
    pub api_key: String,
    pub model: String,
}

/// The model used when none is named.
pub open spec fn default_model() -> Seq<char> {
    "google/gemini-2.0-flash-lite-001:free"@
}

/// The prompt sent to the model for a failure in `target_file`.
pub open spec fn repair_prompt(
    original_code: Seq<char>,
    target_file: Seq<char>,
    failing_test: Seq<char>,
    stderr: Seq<char>,
) -> Seq<char> {
    "You are a Rust software repair assistant. Fix the following code failure:\n\nFile: "@
        + target_file + "\nFailing Test: "@ + failing_test + "\nError Output:\n"@ + stderr
        + "\n\nSource Code:\n```rust\n"@ + original_code
        + "\n```\n\nReturn JSON:\n{\n  \"hypothesis\": \"...\",\n  \"patch\": \"...full repaired source code...\",\n  \"files_changed\": [\""@
        + target_file + "\"],\n  \"risk\": \"low\"\n}"@
}

/// The candidate built from a model's answer: its patch as the new
/// content, the diff against the original, and its hypothesis as rationale.
pub open spec fn llm_candidate_spec(
    original_code: Seq<char>,
    target_file: Seq<char>,
    resp: LlmPatchResponse,
    p: PatchCandidate,
) -> bool {
    &&& p.patched_file_content@ == resp.patch@
    &&& p.diff@ == unified_diff(original_code, resp.patch@, target_file)
    &&& p.target_file@ == target_file
    &&& p.rationale@ == "LLM Hypothesis: "@ + resp.hypothesis@
}

impl LlmPatchGenerator {
    /// A generator with the given key and model.
    pub fn new(api_key: &str, model: &str) -> (g: Self)
        ensures
            g.api_key@ == api_key@,
            g.model@ == model@,
    {
        LlmPatchGenerator { api_key: owned(api_key), model: owned(model) }
    }

    /// A generator with the given key and the default model.
    pub fn with_api_key(api_key: String) -> (g: Self)
        ensures
            g.api_key@ == api_key@,
            g.model@ == default_model(),
    {
        LlmPatchGenerator { api_key, model: owned("google/gemini-2.0-flash-lite-001:free") }
    }

    /// The prompt for a failure.
    pub fn prompt(original_code: &str, target_file: &str, failure: &FailureReport) -> (p: String)
        ensures
            p@ == repair_prompt(original_code@, target_file@, failure.failing_test@, failure.stderr@),
    {
        let mut out: Vec<char> = Vec::new();
        extend_str(
            &mut out,
            "You are a Rust software repair assistant. Fix the following code failure:\n\nFile: ",
        );
        extend_str(&mut out, target_file);
        extend_str(&mut out, "\nFailing Test: ");
        extend_str(&mut out, failure.failing_test.as_str());
        extend_str(&mut out, "\nError Output:\n");
        extend_str(&mut out, failure.stderr.as_str());
        extend_str(&mut out, "\n\nSource Code:\n```rust\n");
        extend_str(&mut out, original_code);
        extend_str(
            &mut out,
            "\n```\n\nReturn JSON:\n{\n  \"hypothesis\": \"...\",\n  \"patch\": \"...full repaired source code...\",\n  \"files_changed\": [\"",
        );
        extend_str(&mut out, target_file);
        extend_str(&mut out, "\"],\n  \"risk\": \"low\"\n}");
        string_of(out.as_slice())
    }

    /// The candidate built from a model's answer.
    pub fn llm_candidate(original_code: &str, target_file: &str, resp: LlmPatchResponse) -> (p: PatchCandidate)
        ensures
            llm_candidate_spec(original_code@, target_file@, resp, p),
    {
        let diff = generate_unified_diff_pub(original_code, resp.patch.as_str(), target_file);
        let mut r: Vec<char> = Vec::new();
        extend_str(&mut r, "LLM Hypothesis: ");
        extend_str(&mut r, resp.hypothesis.as_str());
        PatchCandidate {
            diff,
            patched_file_content: resp.patch,
            target_file: owned(target_file),
            rationale: string_of(r.as_slice()),
        }
    }

    /// Asks the model: the service is offline, so the answer is the error
    /// that sends the caller to the fallback.
    fn call_openrouter_api(&self, prompt: &str) -> (r: Result<LlmPatchResponse, HephaestusError>)
        ensures
            r matches Err(HephaestusError::Internal(m)) && m@ == "LLM offline fallback"@,
    {
        Err(HephaestusError::Internal(owned("LLM offline fallback")))
    }

    /// Generates a patch: the heuristic candidate, unless a key is set and
    /// the model answers, in which case the model's candidate. The model
    /// being offline, the heuristic candidate comes back.
    pub fn generate_patch(&self, original_code: &str, target_file: &str, failure: &FailureReport) -> (r: Result<PatchCandidate, HephaestusError>)
        requires
            patchable(original_code@),
        ensures
            r matches Ok(p) && p.patched_file_content@ == patched_content(original_code@)
                && p.diff@ == unified_diff(original_code@, p.patched_file_content@, target_file@)
                && p.target_file@ == target_file@
                && p.rationale@ == "Replaced direct index access with safe bounds-checked get() method"@,
    {
        let fallback = match ProjectRepairEngine::generate_patch_candidate(
            original_code,
            target_file,
            failure,
        ) {
            Ok(p) => p,
            Err(e) => {
                return Err(e);
            },
        };
        if self.api_key.as_str().is_empty() {
            return Ok(fallback);
        }
        let prompt = Self::prompt(original_code, target_file, failure);
        match self.call_openrouter_api(prompt.as_str()) {
            Ok(resp) => Ok(Self::llm_candidate(original_code, target_file, resp)),
            Err(_) => Ok(fallback),
        }
    }
}

} // verus!
