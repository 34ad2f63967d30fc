use hephaestus::memory::genome_store::{RejectionRecord, RepairGenome};
use hephaestus::sandbox::executor::{PermissionMode, SandboxError, SandboxResult};
use hephaestus::tribunal::angry_master::AngryMaster;
use hephaestus::tribunal::narrative_agent::{narrative_summary, NarrativeAgent};
use hephaestus::tribunal::neutral_judge::NeutralJudge;

fn genome() -> RepairGenome {
    let mut g = RepairGenome::new("h".to_string(), "fn main() {}".to_string());
    g.monkey_hypotheses = vec!["add a bounds check".to_string()];
    g
}

fn run(success: bool, interrupted: bool) -> Result<SandboxResult, SandboxError> {
    Ok(SandboxResult {
        success,
        return_code: if success { Some(0) } else { Some(1) },
        interrupted,
        stdout: String::new(),
        stderr: String::new(),
    })
}

#[test]
fn penalties_reject_failures_and_keep_the_first_pass() {
    let mut g = genome();
    let results = vec![
        ("unsafe { x }".to_string(), false),
        ("let y = 1;".to_string(), true),
        ("let z = 2;".to_string(), false),
        ("let w = 3;".to_string(), true),
    ];
    AngryMaster.apply_penalties(&mut g, results).unwrap();
    assert_eq!(g.rejected_patches.len(), 2);
    assert_eq!(g.rejected_patches[0].patch, "unsafe { x }");
    assert_eq!(g.rejected_patches[0].reason, "Patch contains unsafe code");
    assert_eq!(g.rejected_patches[1].patch, "let z = 2;");
    assert_eq!(g.rejected_patches[1].reason, "Patch failed to execute successfully in sandbox");
    assert_eq!(g.rejected_patches[0].timestamp, g.rejected_patches[1].timestamp);
    assert_eq!(g.final_repaired_code, Some("let y = 1;".to_string()));
    assert!(g.monkey_hypotheses.is_empty());
    assert_eq!(g.hash, "h");
}

#[test]
fn passing_unsafe_patches_are_still_rejected() {
    let mut g = genome();
    let results = vec![("unsafe { fast() }".to_string(), true), ("safe()".to_string(), true)];
    AngryMaster.apply_penalties(&mut g, results).unwrap();
    assert_eq!(g.rejected_patches.len(), 1);
    assert_eq!(g.rejected_patches[0].patch, "unsafe { fast() }");
    assert_eq!(g.rejected_patches[0].reason, "Patch contains unsafe code");
    assert_eq!(g.final_repaired_code, Some("safe()".to_string()));

    let mut only_unsafe = genome();
    AngryMaster
        .apply_penalties(&mut only_unsafe, vec![("unsafe {}".to_string(), true)])
        .unwrap();
    assert_eq!(only_unsafe.final_repaired_code, None);
}

#[test]
fn penalties_without_a_pass_leave_no_repair() {
    let mut g = genome();
    g.final_repaired_code = Some("stale".to_string());
    AngryMaster.apply_penalties(&mut g, vec![("bad".to_string(), false)]).unwrap();
    assert_eq!(g.final_repaired_code, None);
    assert_eq!(g.monkey_hypotheses, vec!["add a bounds check".to_string()]);
    assert_eq!(g.rejected_patches.len(), 1);
}

#[test]
fn verdict_records_the_narrative() {
    let mut g = genome();
    g.rejected_patches.push(RejectionRecord {
        patch: "0123456789012345678901234567890123456789".to_string(),
        reason: "still panics".to_string(),
        timestamp: 1,
    });
    g.final_repaired_code = Some("fn main() { let x = 0; }".to_string());
    let expected = "Tribunal proceedings initiated at 77\nTelemetry trigger: panic: boom\nWild Monkey generated 1 hypotheses:\n  Hypothesis 1: add a bounds check...\nNeutral Judge rejected 1 patches:\n  Rejection 1: 012345678901234567890123456789 (reason: still panics)\nAngry Master approved the final repair.\nFinal repaired code (24 chars): fn main() { let x = 0; }...";
    assert_eq!(narrative_summary(&g, true, "panic: boom", 77), expected);

    NarrativeAgent.record_verdict(&mut g, true, "panic: boom").unwrap();
    assert_eq!(g.telemetry_trigger, Some("panic: boom".to_string()));
    let summary = g.narrative_summary.clone().unwrap();
    assert!(summary.starts_with("Tribunal proceedings initiated at "));
    assert!(summary.ends_with("Final repaired code (24 chars): fn main() { let x = 0; }..."));

    // A trigger already recorded stays.
    NarrativeAgent.record_verdict(&mut g, false, "other").unwrap();
    assert_eq!(g.telemetry_trigger, Some("panic: boom".to_string()));
    assert!(g
        .narrative_summary
        .unwrap()
        .ends_with("Angry Master found code but tribunal vetoed the repair."));
}

#[test]
fn verdict_lines_for_each_outcome() {
    let mut g = RepairGenome::new("h".to_string(), "x".to_string());
    assert_eq!(
        narrative_summary(&g, false, "t", 0),
        "Tribunal proceedings initiated at 0\nTelemetry trigger: t\nAngry Master found no viable repair after tribunal review."
    );
    assert!(narrative_summary(&g, true, "t", 0)
        .ends_with("Inconsistent state: verdict true but no code produced."));
    g.final_repaired_code = Some("é".to_string());
    assert!(narrative_summary(&g, true, "t", 0).ends_with("Final repaired code (2 chars): é..."));
}

#[test]
fn safeguards_refuse_dangerous_patches() {
    let judge = NeutralJudge;
    assert!(judge.inspect_safeguards(vec!["let x = 1;".to_string()]).unwrap());
    assert!(!judge
        .inspect_safeguards(vec!["ok".to_string(), "std::process::exit(1)".to_string()])
        .unwrap());
    assert!(!judge.inspect_safeguards(vec!["fs::remove_dir_all(p)".to_string()]).unwrap());
    assert!(!judge.inspect_safeguards(vec!["std::mem::forget(v)".to_string()]).unwrap());
    assert!(!judge.inspect_safeguards(vec!["unsafe {}".to_string()]).unwrap());
    assert!(judge.inspect_safeguards(Vec::new()).unwrap());
}

#[test]
fn trials_pass_only_clean_runs() {
    let judge = NeutralJudge;
    let c = judge.trial_config(None);
    assert_eq!(c.cwd, "/tmp");
    assert_eq!(c.timeout_ms, 2000);
    assert_eq!(c.permission_mode, PermissionMode::ReadOnly);
    assert!(!c.enable_network && c.enable_user_namespace && c.drop_capabilities && !c.danger_mode);
    assert_eq!(judge.trial_config(Some("/w".to_string())).cwd, "/w");

    let patches = vec!["a".to_string(), "b".to_string(), "c".to_string(), "d".to_string()];
    let outcomes = vec![
        run(true, false),
        run(true, true),
        run(false, false),
        Err(SandboxError::SpawnFailed("x".to_string())),
    ];
    let verdicts = judge.judge_trials(patches, &outcomes);
    assert_eq!(
        verdicts,
        vec![
            ("a".to_string(), true),
            ("b".to_string(), false),
            ("c".to_string(), false),
            ("d".to_string(), false)
        ]
    );
}

#[test]
fn penalties_at_a_given_time_stamp_each_rejection() {
    let mut g = genome();
    g.rejected_patches.push(RejectionRecord { patch: "old".to_string(), reason: "r".to_string(), timestamp: 5 });
    let results = vec![
        ("a".to_string(), false),
        ("unsafe {}".to_string(), false),
        ("b".to_string(), true),
        ("c".to_string(), true),
    ];
    AngryMaster.apply_penalties_at(&mut g, results, 1234);
    assert_eq!(g.final_repaired_code, Some("b".to_string()));
    assert!(g.monkey_hypotheses.is_empty());
    assert_eq!(g.rejected_patches.len(), 3);
    assert_eq!(g.rejected_patches[0].timestamp, 5);
    assert_eq!(g.rejected_patches[1].patch, "a");
    assert_eq!(g.rejected_patches[1].reason, "Patch failed to execute successfully in sandbox");
    assert_eq!(g.rejected_patches[1].timestamp, 1234);
    assert_eq!(g.rejected_patches[2].patch, "unsafe {}");
    assert_eq!(g.rejected_patches[2].reason, "Patch contains unsafe code");
    assert_eq!(g.rejected_patches[2].timestamp, 1234);
}

#[test]
fn verdict_at_a_given_time_sets_the_timestamp() {
    let mut g = genome();
    g.timestamp = 1;
    NarrativeAgent.record_verdict_at(&mut g, false, "panic: boom", 77, 99);
    assert_eq!(g.timestamp, 99);
    assert_eq!(g.telemetry_trigger, Some("panic: boom".to_string()));
    assert_eq!(g.narrative_summary, Some(narrative_summary(&genome(), false, "panic: boom", 77)));
    assert_eq!(g.hash, "h");
    assert_eq!(g.monkey_hypotheses, vec!["add a bounds check".to_string()]);
}
