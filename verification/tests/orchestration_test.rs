use hephaestus::error::HephaestusError;
use hephaestus::interceptor::interceptor::{
    extract_error_keywords, HephaestusInterceptor, InterceptError, InterceptorConfig,
    PermissionMode, RepairTrigger, Skill, SkillResult,
};
use hephaestus::memory::genome_store::RepairGenome;
use hephaestus::orchestration::bifurcated_agent::{
    BifurcatedAgent, BifurcatedAgentConfig, RepairJob, SkillRunner,
};
use hephaestus::orchestration::llm_patch_generator::{LlmPatchGenerator, LlmPatchResponse};
use hephaestus::orchestration::project_repair::{
    generate_unified_diff_pub, is_patchable, parse_failing_test_name, patch_index_access,
    patch_would_panic, FailureReport, ProjectRepairEngine,
};

fn failure() -> FailureReport {
    FailureReport {
        failing_test: "tests::test_out_of_bounds".to_string(),
        exit_code: Some(101),
        stderr: "index out of bounds".to_string(),
        stdout: String::new(),
        duration_ms: 12,
    }
}

fn interceptor() -> HephaestusInterceptor {
    let (tx, _rx) = std::sync::mpsc::channel();
    HephaestusInterceptor::new(
        tx,
        InterceptorConfig {
            permission_mode: PermissionMode::AutoRepair,
            max_repair_wait_ms: 1000,
            reinvoke_after_repair: false,
            repair_log_path: "repairs.log".to_string(),
        },
    )
}

fn skill(name: &str, code: &str) -> Skill {
    Skill { name: name.to_string(), code: code.to_string() }
}

#[test]
fn failing_test_name_from_output() {
    let out = "running 2 tests\ntest tests::ok ... ok\ntest tests::test_out_of_bounds ... FAILED\n";
    assert_eq!(parse_failing_test_name(out, ""), "tests::test_out_of_bounds");
    assert_eq!(parse_failing_test_name("", "nothing here"), "unknown_failing_test");
}

#[test]
fn index_access_becomes_bounds_checked() {
    assert_eq!(patch_index_access("    let x = arr[i];"), "    let x = arr.get(i).copied();");
    assert_eq!(patch_index_access("    Some(v[idx])"), "    v.get(idx).copied()");
    assert_eq!(patch_index_access("no brackets"), "no brackets");
    assert!(patch_would_panic("Some(a]b[c)"));
    assert!(!patch_would_panic("Some(v[idx])"));
    assert!(is_patchable("fn f(v: &[u8]) -> u8 {\n    v[3]\n}\n"));
    assert!(!is_patchable("x = Some(a]b[c);\n"));
}

#[test]
fn patch_candidate_and_diff() {
    let code = "pub fn get(v: &[i32], i: usize) -> i32 {\n    v[i]\n}";
    let p = ProjectRepairEngine::generate_patch_candidate(code, "src/lib.rs", &failure()).unwrap();
    assert_eq!(p.patched_file_content, "pub fn get(v: &[i32], i: usize) -> i32 {\n    v.get(i).copied()\n}");
    assert_eq!(p.target_file, "src/lib.rs");
    assert_eq!(p.rationale, "Replaced direct index access with safe bounds-checked get() method");
    assert_eq!(
        p.diff,
        "--- a/src/lib.rs\n+++ b/src/lib.rs\n@@ -1,3 +1,3 @@\n-    v[i]\n pub fn get(v: &[i32], i: usize) -> i32 {\n+    v.get(i).copied()\n }\n"
    );
    assert_eq!(p.diff, generate_unified_diff_pub(code, &p.patched_file_content, "src/lib.rs"));
}

#[test]
fn fallback_rewrites_known_patterns() {
    let code = "// arr[index]";
    let p = ProjectRepairEngine::generate_patch_candidate(code, "a.rs", &failure()).unwrap();
    assert_eq!(p.patched_file_content, "// arr.get(index).copied().unwrap_or(0)");
}

#[test]
fn repair_cycle_steps() {
    match ProjectRepairEngine::require_failure(true) {
        Err(HephaestusError::InvalidInput(m)) => {
            assert_eq!(m, "Initial project tests passed; no failure to repair")
        }
        _ => panic!("passing project accepted"),
    }
    assert!(ProjectRepairEngine::require_failure(false).is_ok());

    let (ok, report) = ProjectRepairEngine::test_run_report(
        false,
        Some(101),
        "test a::b ... FAILED".to_string(),
        "boom".to_string(),
        5,
    );
    assert!(!ok);
    assert_eq!(report.failing_test, "a::b");
    assert_eq!(report.stderr, "boom");
    assert_eq!(report.exit_code, Some(101));

    let tests = (true, report.clone());
    let v = ProjectRepairEngine::validation_report(true, false, &tests, 9);
    assert!(v.compiled && !v.clippy_passed && v.tests_passed);
    assert_eq!(v.stderr, "boom");

    let code = "fn f(v: &[u8]) -> u8 {\n    v[3]\n}";
    let patch = ProjectRepairEngine::generate_patch_candidate(code, "src/lib.rs", &failure()).unwrap();
    let (genome, result) = ProjectRepairEngine::conclude_cycle(
        code.to_string(),
        "src/lib.rs",
        failure(),
        patch.clone(),
        v,
    );
    assert!(result.success);
    assert_eq!(genome.hash, blake3::hash(code.as_bytes()).to_hex().to_string());
    assert_eq!(result.genome_hash, genome.hash);
    assert_eq!(genome.final_repaired_code, Some(patch.patched_file_content.clone()));
    assert_eq!(genome.monkey_hypotheses, vec![patch.diff.clone()]);
    assert_eq!(genome.telemetry_trigger, Some("index out of bounds".to_string()));
    assert_eq!(
        genome.narrative_summary,
        Some("Successfully repaired index out of bounds bug in src/lib.rs. Failing test 'tests::test_out_of_bounds' now passes.".to_string())
    );
    assert_eq!(result.unified_diff, Some(patch.diff));
}

#[test]
fn failed_validation_records_no_repair() {
    let code = "fn f(v: &[u8]) -> u8 {\n    v[3]\n}";
    let patch = ProjectRepairEngine::generate_patch_candidate(code, "src/lib.rs", &failure()).unwrap();
    let tests = (false, failure());
    let v = ProjectRepairEngine::validation_report(true, true, &tests, 1);
    let (genome, result) = ProjectRepairEngine::conclude_cycle(code.to_string(), "src/lib.rs", failure(), patch, v);
    assert!(!result.success);
    assert_eq!(genome.final_repaired_code, None);
    assert_eq!(genome.narrative_summary, None);
}

#[test]
fn llm_generator_falls_back_to_the_heuristic() {
    let code = "fn f(v: &[u8]) -> u8 {\n    v[3]\n}";
    let heuristic = ProjectRepairEngine::generate_patch_candidate(code, "src/lib.rs", &failure()).unwrap();
    let keyless = LlmPatchGenerator::new("", "m");
    assert_eq!(keyless.model, "m");
    let p = keyless.generate_patch(code, "src/lib.rs", &failure()).unwrap();
    assert_eq!(p.patched_file_content, heuristic.patched_file_content);
    let keyed = LlmPatchGenerator::with_api_key("sk-test".to_string());
    assert_eq!(keyed.model, "google/gemini-2.0-flash-lite-001:free");
    let q = keyed.generate_patch(code, "src/lib.rs", &failure()).unwrap();
    assert_eq!(q.diff, heuristic.diff);

    let prompt = LlmPatchGenerator::prompt("X", "a.rs", &failure());
    assert!(prompt.starts_with("You are a Rust software repair assistant. Fix the following code failure:\n\nFile: a.rs\nFailing Test: tests::test_out_of_bounds\n"));
    assert!(prompt.ends_with("\"files_changed\": [\"a.rs\"],\n  \"risk\": \"low\"\n}"));

    let resp = LlmPatchResponse {
        hypothesis: "off by one".to_string(),
        patch: "fixed".to_string(),
        files_changed: vec!["a.rs".to_string()],
        risk: "low".to_string(),
    };
    let c = LlmPatchGenerator::llm_candidate("broken", "a.rs", resp);
    assert_eq!(c.rationale, "LLM Hypothesis: off by one");
    assert_eq!(c.patched_file_content, "fixed");
    assert_eq!(c.diff, "--- a/a.rs\n+++ b/a.rs\n@@ -1,1 +1,1 @@\n-broken\n+fixed\n");
}

#[test]
fn interception_fails_intentional_panics() {
    let i = interceptor();
    let copy = i.clone();
    assert!(matches!(i.intercept_skill(&skill("ok", "fn f() {}")), SkillResult::Success));
    match copy.intercept_skill(&skill("bad", "panic!(\"x\")")) {
        SkillResult::Failure(m) => assert_eq!(m, "Intentional panic"),
        SkillResult::Success => panic!("panicking skill succeeded"),
    }
    let (r, t) = i.intercept_skill_with_trigger(&skill("bad", "panic!()"));
    assert!(matches!(r, SkillResult::Success));
    assert!(t.is_none());
    assert!(i.after_skill_execution(&skill("a", ""), &SkillResult::Success).is_ok());
    assert!(i.on_skill_failure(&skill("a", ""), &SkillResult::Failure("x".to_string())).is_ok());
    assert_eq!(
        extract_error_keywords("  index out\tof bounds\n"),
        vec!["index".to_string(), "out".to_string(), "of".to_string(), "bounds".to_string()]
    );
    assert_eq!(InterceptError::IoError("disk".to_string()).message(), "I/O error: disk");
    assert_eq!(InterceptError::TelemetryFailed("t".to_string()).message(), "Telemetry failed: t");
    let trigger = RepairTrigger {
        skill_name: "s".to_string(),
        error_message: "boom".to_string(),
        error_keywords: extract_error_keywords("boom"),
        stack_trace: vec![],
        memory_snapshot: None,
    };
    let panicked = InterceptError::SkillPanicked { trigger, skill_name: "s".to_string() };
    assert_eq!(panicked.message(), "Skill panicked: s");
}

#[test]
fn bifurcation_starts_repairs_up_to_the_limit() {
    let i = interceptor();
    let mut agent = BifurcatedAgent::new(BifurcatedAgentConfig {
        max_parallel_repairs: 1,
        reinvoke_after_successful_repair: true,
        log_dir: "/tmp/logs".to_string(),
    });
    assert_eq!(agent.max_parallel_repairs(), 1);
    let (r, job) = agent.executeskill_bifurcated(&skill("ok", "fn test() {};"), &i).unwrap();
    assert!(matches!(r, SkillResult::Success));
    assert!(job.is_none());
    let (r, job) = agent.executeskill_bifurcated(&skill("p", "panic!(\"boom\");"), &i).unwrap();
    assert!(matches!(r, SkillResult::Failure(_)));
    let job = job.unwrap();
    assert_eq!(job.skill.name, "p");
    let (_, again) = agent.executeskill_bifurcated(&skill("p", "panic!(\"boom\");"), &i).unwrap();
    assert!(again.is_none());
    assert!(SkillRunner::default().run_skill(&skill("ok", "fn f() {}")).is_ok());
}

#[test]
fn pipeline_concludes_the_tribunal() {
    let job = RepairJob { skill: skill("s", "fn s() {}"), repair_trigger: None };
    let (mut genome, telemetry) = BifurcatedAgent::start_pipeline(&job);
    assert_eq!(telemetry, "Unknown error during skill execution");
    assert_eq!(genome.hash, "");
    assert_eq!(genome.timestamp, 0);
    let with_trigger = RepairJob {
        skill: skill("s", ""),
        repair_trigger: Some(RepairTrigger {
            skill_name: "s".to_string(),
            error_message: "boom".to_string(),
            error_keywords: vec![],
            stack_trace: vec![],
            memory_snapshot: None,
        }),
    };
    assert_eq!(BifurcatedAgent::start_pipeline(&with_trigger).1, "boom");

    let patches = vec!["p1".to_string(), "p2".to_string()];
    let trials = vec![("p1".to_string(), false), ("p2".to_string(), true)];
    BifurcatedAgent::conclude_tribunal(&mut genome, patches, trials, &telemetry).unwrap();
    assert_eq!(genome.final_repaired_code, Some("p2".to_string()));
    assert_eq!(genome.rejected_patches.len(), 1);
    assert!(genome.hash.chars().all(|c| c.is_ascii_digit()) && !genome.hash.is_empty());
    assert!(genome.narrative_summary.unwrap().contains("Angry Master approved the final repair."));

    let outcome = BifurcatedAgent::repair_outcome("s".to_string(), &RepairGenome::new("h".to_string(), "c".to_string()), 3);
    assert!(!outcome.success);
    assert_eq!(outcome.confidence_tenths, 1);
    let failed = BifurcatedAgent::failed_outcome("s".to_string(), 4);
    assert_eq!(failed.confidence_tenths, 0);
    let e = BifurcatedAgent::stage_error("Failed to store genome", &HephaestusError::Database("locked".to_string()));
    assert_eq!(e.message(), "Internal inconsistency: Failed to store genome: Database error: locked");
}

#[test]
fn code_without_brackets_comes_back_unchanged() {
    let code = "fn main() {\n    let x = 1;\n}\n";
    let p = ProjectRepairEngine::generate_patch_candidate(code, "src/main.rs", &failure()).unwrap();
    assert_eq!(p.patched_file_content, code);
    assert_eq!(
        p.diff,
        "--- a/src/main.rs\n+++ b/src/main.rs\n@@ -1,3 +1,3 @@\n fn main() {\n     let x = 1;\n }\n"
    );
}

#[test]
fn tribunal_at_given_times_stamps_and_keys_the_genome() {
    let mut genome = RepairGenome::new("h".to_string(), "fn main() {}".to_string());
    let patches = vec!["p1".to_string(), "p2".to_string()];
    let trials = vec![("p1".to_string(), false), ("p2".to_string(), true)];
    BifurcatedAgent::conclude_tribunal_at(&mut genome, patches, trials, "boom", 10, 20, 30);
    assert_eq!(genome.timestamp, 30);
    assert_eq!(genome.rejected_patches.len(), 1);
    assert_eq!(genome.rejected_patches[0].timestamp, 10);
    assert_eq!(genome.final_repaired_code, Some("p2".to_string()));
    assert!(genome.narrative_summary.unwrap().starts_with("Tribunal proceedings initiated at 20\n"));
    let mut hasher = std::collections::hash_map::DefaultHasher::new();
    std::hash::Hash::hash("fn main() {}", &mut hasher);
    assert_eq!(genome.hash, std::hash::Hasher::finish(&hasher).to_string());
}
