use hephaestus::investigation::protocol::{
    CodeFix, EvidenceCollection, Fact, FailureGuard, GateViolation, GuardType, Hypothesis,
    InvestigationOutput, InvestigationPhase, ProblemDefinition, ReproductionAttempt,
    ReproductionMethod, Verification,
};

#[test]
fn test_problem_definition_validation() {
    let problem = ProblemDefinition {
        expected_behavior: "Should return true".to_string(),
        observed_behavior: "But got false".to_string(),
        scope: "Login function".to_string(),
        reproducible: true,
    };
    assert!(problem.validate().is_ok());

    let problem_multi = ProblemDefinition {
        expected_behavior: "Should return true. And also do something else.".to_string(),
        observed_behavior: "But got false.".to_string(),
        scope: "Login function".to_string(),
        reproducible: true,
    };
    assert!(problem_multi.validate().is_err());
}

#[test]
fn test_reproduction_attempt_validation() {
    let repro = ReproductionAttempt {
        method: ReproductionMethod::ManualScript,
        steps: vec!["Step 1".to_string()],
        observed_result: "Success".to_string(),
        consistent: true,
    };
    assert!(repro.validate().is_ok());

    let repro_inst = ReproductionAttempt {
        method: ReproductionMethod::InstrumentedLogs,
        steps: vec![],
        observed_result: "Logs show error".to_string(),
        consistent: false,
    };
    assert!(repro_inst.validate().is_ok());

    let repro_invalid = ReproductionAttempt {
        method: ReproductionMethod::ManualScript,
        steps: vec!["Step 1".to_string()],
        observed_result: "Sometimes works".to_string(),
        consistent: false,
    };
    assert!(repro_invalid.validate().is_err());
}

#[test]
fn test_hypothesis_validation() {
    let hypothesis = Hypothesis {
        root_cause: "Null pointer dereference".to_string(),
        evidence: "Stack trace shows crash at line 42".to_string(),
    };
    assert!(hypothesis.validate().is_ok());

    let hypothesis_invalid = Hypothesis {
        root_cause: "".to_string(),
        evidence: "Some evidence".to_string(),
    };
    assert!(hypothesis_invalid.validate().is_err());
}

fn problem(expected: &str, observed: &str) -> ProblemDefinition {
    ProblemDefinition {
        expected_behavior: expected.to_string(),
        observed_behavior: observed.to_string(),
        scope: "Test".to_string(),
        reproducible: true,
    }
}

#[test]
fn problem_with_trailing_full_stop_is_one_sentence() {
    assert!(problem("Should work", "it failed.").validate().is_ok());
    // a full stop after the expectation splits the statement in two
    assert!(problem("Should work.", "it failed.").validate().is_err());
    assert!(problem("Should work", "it failed").validate().is_ok());
    assert!(matches!(
        problem("One. Two", "three").validate(),
        Err(GateViolation::ProblemNotSingleSentence)
    ));
    // blank pieces between full stops do not count
    assert!(problem("Should work", ". .  ").validate().is_ok());
}

#[test]
fn each_gate_reports_its_own_violation() {
    let e = EvidenceCollection { facts: vec![] };
    assert!(matches!(e.validate(), Err(GateViolation::NoEvidenceGathered)));
    let e = EvidenceCollection {
        facts: vec![Fact {
            layer: "Entry".to_string(),
            input_value: "1".to_string(),
            output_value: "2".to_string(),
            transformed: true,
            condition: "always".to_string(),
        }],
    };
    assert!(e.validate().is_ok());
    let g = FailureGuard {
        guard_type: GuardType::AutomatedTest,
        description: String::new(),
        passes_before_fix: false,
        passes_after_fix: true,
    };
    assert!(matches!(g.validate(), Err(GateViolation::NoFailingTest)));
    let f = CodeFix {
        original_code: String::new(),
        fixed_code: String::new(),
        rationale: String::new(),
        changes_count: 6,
    };
    assert!(matches!(f.validate(), Err(GateViolation::FixNotMinimal)));
    let f5 = CodeFix { changes_count: 5, ..f.clone() };
    assert!(f5.validate().is_ok());
    let v = Verification {
        original_reproduction_still_fails: false,
        guard_now_passes: false,
        related_tests_pass: true,
        side_effects_none: true,
    };
    assert!(matches!(v.validate(), Err(GateViolation::VerificationIncomplete)));
    let repro = ReproductionAttempt {
        method: ReproductionMethod::ExistingTest,
        steps: vec![],
        observed_result: String::new(),
        consistent: false,
    };
    assert!(matches!(repro.validate(), Err(GateViolation::ReproductionFailed)));
}

#[test]
fn phases_advance_one_at_a_time() {
    let p1 = InvestigationPhase::Phase1(problem("Should work", "But failed"));
    let p2 = p1.transition_to_next().unwrap();
    assert!(matches!(p2, InvestigationPhase::Phase2(_)));
    // the opening reproduction record blocks until it is filled in
    assert!(matches!(p2.transition_to_next(), Err(GateViolation::ReproductionFailed)));
    let fix = InvestigationPhase::Phase6(CodeFix {
        original_code: String::new(),
        fixed_code: String::new(),
        rationale: String::new(),
        changes_count: 0,
    });
    let p7 = fix.transition_to_next().unwrap();
    assert!(matches!(p7, InvestigationPhase::Phase7(_)));
    assert!(matches!(p7.transition_to_next(), Err(GateViolation::VerificationIncomplete)));
    let done = InvestigationPhase::Phase7(Verification {
        original_reproduction_still_fails: false,
        guard_now_passes: true,
        related_tests_pass: true,
        side_effects_none: true,
    });
    let again = done.transition_to_next().unwrap();
    assert!(matches!(again, InvestigationPhase::Phase7(ref v) if v.guard_now_passes));
    match InvestigationPhase::Failed(GateViolation::ThreeFixesFailed).transition_to_next() {
        Err(GateViolation::OutputContractIncomplete(m)) => assert_eq!(m, "Invalid state"),
        _ => panic!("a failed investigation must not advance"),
    }
}

#[test]
fn complete_output_reports_first_failing_gate() {
    let out = InvestigationOutput {
        problem: problem("Should work", "But failed"),
        reproduction: ReproductionAttempt {
            method: ReproductionMethod::UnitTest,
            steps: vec![],
            observed_result: String::new(),
            consistent: false,
        },
        evidence: EvidenceCollection { facts: vec![] },
        hypothesis: Hypothesis { root_cause: String::new(), evidence: String::new() },
        guard: FailureGuard {
            guard_type: GuardType::ManualVerification,
            description: String::new(),
            passes_before_fix: false,
            passes_after_fix: false,
        },
        fix: CodeFix {
            original_code: String::new(),
            fixed_code: String::new(),
            rationale: String::new(),
            changes_count: 9,
        },
        verification: Verification {
            original_reproduction_still_fails: true,
            guard_now_passes: false,
            related_tests_pass: false,
            side_effects_none: false,
        },
    };
    assert!(matches!(out.validate_complete(), Err(GateViolation::NoEvidenceGathered)));
}

#[test]
fn gate_messages() {
    assert_eq!(
        GateViolation::ProblemNotSingleSentence.message(),
        "Problem description must be exactly one sentence"
    );
    assert_eq!(
        GateViolation::OutputContractIncomplete("guard".to_string()).message(),
        "Incomplete output contract; missing: guard"
    );
}
